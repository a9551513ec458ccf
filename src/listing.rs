use vstd::prelude::*;
use vstd::string::{StrSliceExecFns, StringSliceAdditionalSpecFns};
use vstd::utf8::valid_utf8;

verus! {

/// Why a step of the batch could not go on.
#[derive(Debug, Clone, Copy, PartialEq, Eq, Structural)]
pub enum SyncError {
    /// Output of a git command was not well-formed UTF-8.
    InvalidText,
}

/// Relies on `std::str::from_utf8`: `Ok` exactly when the bytes are well-formed
/// UTF-8, and the text then consists of those bytes.
#[verifier::external_body]
pub(crate) fn decode_text(bytes: &[u8]) -> (r: Option<&str>)
    ensures
        r is Some <==> valid_utf8(bytes@),
        r matches Some(s) ==> s.spec_bytes() == bytes@,
{
    std::str::from_utf8(bytes).ok()
}

/// Whether `needle` occurs as a contiguous run inside `hay`.
pub open spec fn has_infix(hay: Seq<u8>, needle: Seq<u8>) -> bool {
    exists|i: int|
        0 <= i && i + needle.len() <= hay.len() && #[trigger] hay.subrange(i, i + needle.len())
            == needle
}

/// The bytes that show `branch` in a branch listing: its name, then a newline.
pub open spec fn listed_form(branch: Seq<u8>) -> Seq<u8> {
    branch.push(10u8)
}

/// Whether `needle` occurs in `hay` at position `at`.
fn occurs_at(hay: &[u8], needle: &[u8], at: usize) -> (r: bool)
    requires
        at + needle@.len() <= hay@.len(),
    ensures
        r == (hay@.subrange(at as int, at + needle@.len()) == needle@),
{
    let hay_len: usize = hay.len();
    let mut k: usize = 0;
    while k < needle.len()
        invariant
            hay_len == hay@.len(),
            k <= needle@.len(),
            at + needle@.len() <= hay@.len(),
            forall|j: int| 0 <= j < k ==> hay@[at + j] == needle@[j],
        decreases needle@.len() - k,
    {
        if hay[at + k] != needle[k] {
            assert(hay@.subrange(at as int, at + needle@.len())[k as int] != needle@[k as int]);
            return false;
        }
        k = k + 1;
    }
    assert(hay@.subrange(at as int, at + needle@.len()) =~= needle@);
    true
}

/// Whether `needle` occurs anywhere in `hay`.
pub fn contains_bytes(hay: &[u8], needle: &[u8]) -> (r: bool)
    ensures
        r == has_infix(hay@, needle@),
{
    if needle.len() > hay.len() {
        return false;
    }
    let last: usize = hay.len() - needle.len();
    let mut at: usize = 0;
    while at <= last
        invariant
            last + needle@.len() == hay@.len(),
            at <= last + 1,
            forall|i: int|
                0 <= i < at ==> #[trigger] hay@.subrange(i, i + needle@.len()) != needle@,
        decreases last + 1 - at,
    {
        if occurs_at(hay, needle, at) {
            return true;
        }
        if at == last {
            return false;
        }
        at = at + 1;
    }
    false
}

/// Decodes the output of `git branch` and tells whether `branch` is listed in
/// it: whether its name followed by a newline occurs anywhere in the text.
/// The marker `* ` of the checked-out branch, or other leading text on the
/// line, does not hide a match.
pub fn branch_listed(listing: &[u8], branch: &str) -> (r: Result<bool, SyncError>)
    ensures
        r is Err <==> !valid_utf8(listing@),
        r matches Err(e) ==> e == SyncError::InvalidText,
        r matches Ok(found) ==> found == has_infix(listing@, listed_form(branch.spec_bytes())),
{
    match decode_text(listing) {
        None => Err(SyncError::InvalidText),
        Some(text) => {
            let mut needle = branch.as_bytes_vec();
            needle.push(10u8);
            Ok(contains_bytes(text.as_bytes(), needle.as_slice()))
        },
    }
}

/// A listing that holds `branch` on a line of its own, after any leading text
/// on that line (the `* ` of the checked-out branch, indentation), reports the
/// branch as present.
pub proof fn lemma_listed_line_found(before: Seq<u8>, lead: Seq<u8>, branch: Seq<u8>, after: Seq<u8>)
    ensures
        has_infix(before + lead + listed_form(branch) + after, listed_form(branch)),
{
    let hay = before + lead + listed_form(branch) + after;
    let i: int = (before.len() + lead.len()) as int;
    assert(hay.subrange(i, i + listed_form(branch).len()) =~= listed_form(branch));
}

} // verus!
