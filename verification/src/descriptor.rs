//! Nodes of a dataflow after aliases and inherited settings have been
//! resolved.

use vstd::prelude::*;
use crate::config::{NodeId, NodeRunConfig, OperatorId};

verus! {

/// One operator hosted by a runtime node.
#[derive(Debug, Clone, PartialEq, Eq)]
pub struct OperatorDefinition {
    pub id: OperatorId,
    pub source: String,
}

/// How a node is run.
#[derive(Debug, Clone, PartialEq, Eq)]
pub enum CoreNodeKind {
    /// A process of its own, started from `source` with `args`.
    Custom { source: String, args: Option<String> },
    /// A set of operators hosted together by one in-process runtime.
    Runtime { operators: Vec<OperatorDefinition> },
}

/// One stage of the pipeline, ready to be spawned.
#[derive(Debug, Clone, PartialEq, Eq)]
pub struct ResolvedNode {
    pub id: NodeId,
    /// The machine that the node is to run on; empty where the descriptor
    /// names none.
    pub machine: String,
    pub run_config: NodeRunConfig,
    pub kind: CoreNodeKind,
}

impl ResolvedNode {
    pub open spec fn is_runtime(self) -> bool {
        self.kind is Runtime
    }

    /// Whether the node is hosted by the in-process runtime.
    pub fn hosted_by_runtime(&self) -> (hosted: bool)
        ensures
            hosted == self.is_runtime(),
    {
        match &self.kind {
            CoreNodeKind::Runtime { .. } => true,
            CoreNodeKind::Custom { .. } => false,
        }
    }
}

/// No two nodes of the list share an identifier.
pub open spec fn distinct_ids(nodes: Seq<ResolvedNode>) -> bool {
    forall|a: int, b: int|
        0 <= a < b < nodes.len() ==> (#[trigger] nodes[a]).id@ != (#[trigger] nodes[b]).id@
}

} // verus!
