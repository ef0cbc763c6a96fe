//! Identifiers of nodes, operators and data streams, and the declared inputs
//! and outputs of a node.

use vstd::prelude::*;

verus! {

/// Names one node of a dataflow. Unique within its dataflow.
#[derive(Debug, Clone, PartialEq, Eq, PartialOrd, Ord, Hash)]
pub struct NodeId(pub String);

impl View for NodeId {
    type V = Seq<char>;

    open spec fn view(&self) -> Seq<char> {
        self.0@
    }
}

impl NodeId {
    pub fn new(name: String) -> (id: NodeId)
        ensures
            id@ == name@,
    {
        NodeId(name)
    }

    /// Whether both identifiers spell the same name.
    pub fn same(&self, other: &NodeId) -> (eq: bool)
        ensures
            eq == (self@ == other@),
    {
        self.0 == other.0
    }

    /// A copy that spells the same name.
    pub fn duplicate(&self) -> (copy: NodeId)
        ensures
            copy == *self,
            copy@ == self@,
    {
        NodeId(self.0.clone())
    }
}

/// Names one input or output of a node.
#[derive(Debug, Clone, PartialEq, Eq, PartialOrd, Ord, Hash)]
pub struct DataId(pub String);

impl View for DataId {
    type V = Seq<char>;

    open spec fn view(&self) -> Seq<char> {
        self.0@
    }
}

impl DataId {
    pub fn new(name: String) -> (id: DataId)
        ensures
            id@ == name@,
    {
        DataId(name)
    }

    /// Whether both identifiers spell the same name.
    pub fn same(&self, other: &DataId) -> (eq: bool)
        ensures
            eq == (self@ == other@),
    {
        self.0 == other.0
    }

    /// A copy that spells the same name.
    pub fn duplicate(&self) -> (copy: DataId)
        ensures
            copy == *self,
            copy@ == self@,
    {
        DataId(self.0.clone())
    }
}

/// Names one operator inside a runtime node.
#[derive(Debug, Clone, PartialEq, Eq, PartialOrd, Ord, Hash)]
pub struct OperatorId(pub String);

impl View for OperatorId {
    type V = Seq<char>;

    open spec fn view(&self) -> Seq<char> {
        self.0@
    }
}

impl OperatorId {
    /// A copy that spells the same name.
    pub fn duplicate(&self) -> (copy: OperatorId)
        ensures
            copy == *self,
            copy@ == self@,
    {
        OperatorId(self.0.clone())
    }
}

/// One declared input of a node: the input `id` is fed by the output
/// `output` of the node `source`.
#[derive(Debug, Clone, PartialEq, Eq)]
pub struct InputMapping {
    pub id: DataId,
    pub source: NodeId,
    pub output: DataId,
}

impl InputMapping {
    /// Whether this input listens to `output` of `source`.
    pub open spec fn listens_to(self, source: Seq<char>, output: Seq<char>) -> bool {
        self.source@ == source && self.output@ == output
    }

    pub fn duplicate(&self) -> (copy: InputMapping)
        ensures
            copy == *self,
    {
        InputMapping {
            id: self.id.duplicate(),
            source: self.source.duplicate(),
            output: self.output.duplicate(),
        }
    }

    pub fn is_fed_by(&self, source: &NodeId, output: &DataId) -> (fed: bool)
        ensures
            fed == self.listens_to(source@, output@),
    {
        self.source.same(source) && self.output.same(output)
    }
}

/// The inputs that a node listens to and the outputs that it may send on.
#[derive(Debug, Clone, PartialEq, Eq)]
pub struct NodeRunConfig {
    pub inputs: Vec<InputMapping>,
    pub outputs: Vec<DataId>,
}

impl NodeRunConfig {
    /// Whether `output` is among the declared outputs.
    pub open spec fn declares(self, output: Seq<char>) -> bool {
        exists|i: int| 0 <= i < self.outputs.len() && (#[trigger] self.outputs[i])@ == output
    }

    /// A copy with the same inputs and outputs, in the same order.
    pub fn duplicate(&self) -> (copy: NodeRunConfig)
        ensures
            copy.inputs@ == self.inputs@,
            copy.outputs@ == self.outputs@,
    {
        let mut inputs: Vec<InputMapping> = Vec::new();
        let mut i: usize = 0;
        while i < self.inputs.len()
            invariant
                i <= self.inputs.len(),
                inputs@ == self.inputs@.subrange(0, i as int),
            decreases self.inputs.len() - i,
        {
            inputs.push(self.inputs[i].duplicate());
            assert(self.inputs@.subrange(0, i + 1) =~= self.inputs@.subrange(0, i as int).push(
                self.inputs[i as int],
            ));
            i += 1;
        }
        assert(self.inputs@.subrange(0, self.inputs.len() as int) =~= self.inputs@);
        let mut outputs: Vec<DataId> = Vec::new();
        let mut k: usize = 0;
        while k < self.outputs.len()
            invariant
                k <= self.outputs.len(),
                outputs@ == self.outputs@.subrange(0, k as int),
            decreases self.outputs.len() - k,
        {
            outputs.push(self.outputs[k].duplicate());
            assert(self.outputs@.subrange(0, k + 1) =~= self.outputs@.subrange(0, k as int).push(
                self.outputs[k as int],
            ));
            k += 1;
        }
        assert(self.outputs@.subrange(0, self.outputs.len() as int) =~= self.outputs@);
        NodeRunConfig { inputs, outputs }
    }

    pub fn declares_output(&self, output: &DataId) -> (declared: bool)
        ensures
            declared == self.declares(output@),
    {
        let mut i: usize = 0;
        while i < self.outputs.len()
            invariant
                i <= self.outputs.len(),
                forall|j: int| 0 <= j < i ==> (#[trigger] self.outputs[j])@ != output@,
            decreases self.outputs.len() - i,
        {
            if self.outputs[i].same(output) {
                return true;
            }
            i += 1;
        }
        false
    }
}

/// The names that occur in a list of node identifiers.
pub open spec fn node_set(nodes: Seq<NodeId>) -> Set<Seq<char>> {
    Set::new(|n: Seq<char>| exists|i: int| 0 <= i < nodes.len() && (#[trigger] nodes[i])@ == n)
}

/// No name occurs twice in the list.
pub open spec fn no_repeats(nodes: Seq<NodeId>) -> bool {
    forall|a: int, b: int|
        0 <= a < b < nodes.len() ==> (#[trigger] nodes[a])@ != (#[trigger] nodes[b])@
}

pub proof fn lemma_node_set_push(nodes: Seq<NodeId>, node: NodeId)
    ensures
        node_set(nodes.push(node)) =~= node_set(nodes).insert(node@),
{
    let longer = nodes.push(node);
    assert forall|n: Seq<char>| node_set(nodes).insert(node@).contains(n) implies node_set(
        longer,
    ).contains(n) by {
        if n == node@ {
            assert(longer[nodes.len() as int]@ == n);
        } else {
            let i = choose|i: int| 0 <= i < nodes.len() && (#[trigger] nodes[i])@ == n;
            assert(longer[i]@ == n);
        }
    }
    assert forall|n: Seq<char>| node_set(longer).contains(n) implies node_set(nodes).insert(
        node@,
    ).contains(n) by {
        let i = choose|i: int| 0 <= i < longer.len() && (#[trigger] longer[i])@ == n;
        if i < nodes.len() {
            assert(nodes[i]@ == n);
        }
    }
}

pub proof fn lemma_node_set_remove(nodes: Seq<NodeId>, at: int)
    requires
        no_repeats(nodes),
        0 <= at < nodes.len(),
    ensures
        node_set(nodes.remove(at)) =~= node_set(nodes).remove(nodes[at]@),
        no_repeats(nodes.remove(at)),
{
    let shorter = nodes.remove(at);
    assert forall|n: Seq<char>| node_set(shorter).contains(n) implies node_set(nodes).remove(
        nodes[at]@,
    ).contains(n) by {
        let i = choose|i: int| 0 <= i < shorter.len() && (#[trigger] shorter[i])@ == n;
        if i < at {
            assert(nodes[i]@ == n);
        } else {
            assert(nodes[i + 1]@ == n);
        }
    }
    assert forall|n: Seq<char>| node_set(nodes).remove(nodes[at]@).contains(n) implies node_set(
        shorter,
    ).contains(n) by {
        let i = choose|i: int| 0 <= i < nodes.len() && (#[trigger] nodes[i])@ == n;
        if i < at {
            assert(shorter[i]@ == n);
        } else {
            assert(shorter[i - 1]@ == n);
        }
    }
    assert forall|a: int, b: int| 0 <= a < b < shorter.len() implies (#[trigger] shorter[a])@ != (
    #[trigger] shorter[b])@ by {
        let a0 = if a < at { a } else { a + 1 };
        let b0 = if b < at { b } else { b + 1 };
        assert(shorter[a] == nodes[a0]);
        assert(shorter[b] == nodes[b0]);
    }
}

pub proof fn lemma_node_set_empty(nodes: Seq<NodeId>)
    ensures
        nodes.len() == 0 <==> node_set(nodes) =~= Set::empty(),
{
    if nodes.len() > 0 {
        assert(node_set(nodes).contains(nodes[0]@));
    }
}

/// Where `node` stands in the list, if it does.
pub fn position_of(nodes: &Vec<NodeId>, node: &NodeId) -> (at: Option<usize>)
    ensures
        match at {
            Some(i) => i < nodes.len() && nodes[i as int]@ == node@ && forall|j: int|
                0 <= j < i ==> (#[trigger] nodes[j])@ != node@,
            None => !node_set(nodes@).contains(node@),
        },
{
    let mut i: usize = 0;
    while i < nodes.len()
        invariant
            i <= nodes.len(),
            forall|j: int| 0 <= j < i ==> (#[trigger] nodes[j])@ != node@,
        decreases nodes.len() - i,
    {
        if nodes[i].same(node) {
            return Some(i);
        }
        i += 1;
    }
    None
}

/// The list without its repetitions, each name where it first stood.
pub fn distinct(nodes: &Vec<NodeId>) -> (out: Vec<NodeId>)
    ensures
        node_set(out@) == node_set(nodes@),
        no_repeats(out@),
{
    let mut out: Vec<NodeId> = Vec::new();
    let mut i: usize = 0;
    while i < nodes.len()
        invariant
            i <= nodes.len(),
            node_set(out@) =~= node_set(nodes@.subrange(0, i as int)),
            no_repeats(out@),
        decreases nodes.len() - i,
    {
        let ghost before = out@;
        let ghost seen = nodes@.subrange(0, i as int);
        proof {
            assert(nodes@.subrange(0, i + 1) =~= seen.push(nodes[i as int]));
            lemma_node_set_push(seen, nodes[i as int]);
        }
        if position_of(&out, &nodes[i]).is_none() {
            let copy = nodes[i].duplicate();
            out.push(copy);
            proof {
                lemma_node_set_push(before, copy);
                assert forall|a: int, b: int| 0 <= a < b < out.len() implies (#[trigger] out[a])@
                    != (#[trigger] out[b])@ by {
                    if b == before.len() {
                        assert(node_set(before).contains(before[a]@));
                    }
                }
            }
        } else {
            assert(node_set(before).insert(nodes[i as int]@) =~= node_set(before));
        }
        i += 1;
    }
    assert(nodes@.subrange(0, nodes.len() as int) =~= nodes@);
    out
}

} // verus!
