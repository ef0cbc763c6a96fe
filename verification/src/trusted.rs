//! The few places where the library leans on code that is not verified here.
//! Every contract in this file is taken on trust from the named function's
//! documentation or source.

use vstd::prelude::*;

verus! {

/// The version nibble and the variant bits that mark a random (version 4)
/// identifier in the RFC 9562 layout.
pub open spec fn is_random_uuid(v: u128) -> bool {
    &&& (v as nat / 0x1000_0000_0000_0000_0000) % 16 == 4
    &&& (v as nat / 0x4000_0000_0000_0000) % 4 == 2
}

/// `uuid::Uuid::new_v4`, read as a 128-bit big-endian number. The value is
/// random; the contract claims only what the function forces on every
/// outcome: the version field is 4 and the variant field is the RFC one.
#[verifier::external_body]
pub(crate) fn random_uuid() -> (v: u128)
    ensures
        is_random_uuid(v),
{
    uuid::Uuid::new_v4().as_u128()
}

/// The sixteen digits that a number is written with in base sixteen, in
/// lower case.
pub open spec fn hex_digit(n: int) -> char {
    seq!['0', '1', '2', '3', '4', '5', '6', '7', '8', '9', 'a', 'b', 'c', 'd', 'e', 'f'][n]
}

pub open spec fn sixteen_to(n: nat) -> nat
    decreases n,
{
    if n == 0 {
        1
    } else {
        16 * sixteen_to((n - 1) as nat)
    }
}

/// The character at one place of the hyphenated form: a hyphen after the
/// eighth, twelfth, sixteenth and twentieth digit, else the digits of the
/// number from the highest down.
pub open spec fn hyphenated_at(v: u128, i: int) -> char {
    if i == 8 || i == 13 || i == 18 || i == 23 {
        '-'
    } else {
        let k = if i < 8 {
            i
        } else if i < 13 {
            i - 1
        } else if i < 18 {
            i - 2
        } else if i < 23 {
            i - 3
        } else {
            i - 4
        };
        hex_digit(((v as nat / sixteen_to((31 - k) as nat)) % 16) as int)
    }
}

/// The 36 characters that an identifier is written with, such as
/// `67e55044-10b1-426f-9247-bb680e5fe0c8`.
pub open spec fn hyphenated(v: u128) -> Seq<char> {
    Seq::new(36, |i: int| hyphenated_at(v, i))
}

/// `uuid::Uuid::to_string` on `uuid::Uuid::from_u128`. The contract claims
/// the hyphenated lower-case form, with the number's highest hexadecimal
/// digit first.
#[verifier::external_body]
pub(crate) fn uuid_text(v: u128) -> (text: String)
    ensures
        text@ == hyphenated(v),
{
    uuid::Uuid::from_u128(v).to_string()
}

/// The identifier that `uuid::Uuid::parse_str` reads from a text, as a
/// 128-bit big-endian number; `None` where it reads none. The function
/// takes several forms (plain, hyphenated, braced, URN); they are not
/// spelled out here.
pub uninterp spec fn uuid_of_text(text: Seq<char>) -> Option<u128>;

/// `uuid::Uuid::parse_str`, followed by `uuid::Uuid::as_u128`. The contract
/// claims only that the result depends on the text alone.
#[verifier::external_body]
pub(crate) fn parse_uuid(text: &str) -> (v: Option<u128>)
    ensures
        v == uuid_of_text(text@),
{
    match uuid::Uuid::parse_str(text) {
        Ok(uuid) => Some(uuid.as_u128()),
        Err(_) => None,
    }
}

/// The ten digits.
pub open spec fn digit(n: int) -> char {
    seq!['0', '1', '2', '3', '4', '5', '6', '7', '8', '9'][n]
}

/// A number as it is written in base ten, without leading zeros.
pub open spec fn decimal(n: nat) -> Seq<char>
    decreases n,
{
    if n < 10 {
        seq![digit(n as int)]
    } else {
        decimal(n / 10).push(digit((n % 10) as int))
    }
}

/// `u64::to_string` of std: the number in base ten.
#[verifier::external_body]
pub(crate) fn decimal_text(n: u64) -> (text: String)
    ensures
        text@ == decimal(n as nat),
{
    n.to_string()
}

/// `String::push_str` of std: the text is appended.
#[verifier::external_body]
pub(crate) fn push_str(text: &mut String, more: &str)
    ensures
        final(text)@ == old(text)@ + more@,
{
    text.push_str(more)
}

/// `String::from_utf8` of std: the text that the bytes encode, if they are
/// valid UTF-8.
#[verifier::external_body]
pub(crate) fn text_of(bytes: Vec<u8>) -> (text: Option<String>)
    ensures
        match text {
            Some(text) => vstd::utf8::valid_utf8(bytes@) && text@ == vstd::utf8::decode_utf8(
                bytes@,
            ),
            None => !vstd::utf8::valid_utf8(bytes@),
        },
{
    String::from_utf8(bytes).ok()
}

/// What `tabwriter::TabWriter`, with its default settings, makes of bytes
/// that are written to it and flushed: the same lines, with each run of
/// tab-separated columns padded to a common width. `None` where the writer
/// reports an error.
pub uninterp spec fn tab_aligned(bytes: Seq<u8>) -> Option<Seq<u8>>;

/// `tabwriter::TabWriter::new` over a `Vec`, its `write_all`, and
/// `into_inner`, which flushes. The contract claims only that the bytes
/// that come out depend on the bytes that go in alone.
#[verifier::external_body]
pub(crate) fn align_tabs(bytes: &[u8]) -> (aligned: Option<Vec<u8>>)
    ensures
        match aligned {
            Some(aligned) => tab_aligned(bytes@) == Some(aligned@),
            None => tab_aligned(bytes@) is None,
        },
{
    let mut writer = tabwriter::TabWriter::new(Vec::new());
    if std::io::Write::write_all(&mut writer, bytes).is_err() {
        return None;
    }
    writer.into_inner().ok()
}

} // verus!
