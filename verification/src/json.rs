//! JSON text produced through `serde_json`.
use vstd::prelude::*;
use crate::cli_error::escaped;

verus! {

/// What `serde_json::to_string` gives for a string: the characters between
/// double quotes, each written as JSON writes it inside a string (see
/// `escaped`).
pub open spec fn json_string(s: Seq<char>) -> Seq<char> {
    seq!['\u{22}'] + escaped(s) + seq!['\u{22}']
}

/// `serde_json::to_string` of a string slice, which cannot fail for a string:
/// serde_json writes `"`, each character through its escape table (`\"`,
/// `\\`, `\b`, `\t`, `\n`, `\f`, `\r`, and `\u00xx` with lower-case hex for
/// the other characters below U+0020; every other character as itself), then
/// `"`.
#[verifier::external_body]
pub(crate) fn to_json_string(s: &str) -> (r: String)
    ensures
        r@ == json_string(s@),
{
    serde_json::to_string(s).unwrap_or_default()
}

} // verus!
