use crate::text::text_eq;
use vstd::prelude::*;

verus! {

/// The readable form of a token label: the punctuation it stands for, or
/// the label itself where it stands for none.
pub open spec fn humanized(token: Seq<char>) -> Seq<char> {
    if token == "RPAREN"@ {
        ")"@
    } else if token == "LPAREN"@ {
        "("@
    } else if token == "RBRACE"@ {
        "}"@
    } else if token == "LBRACE"@ {
        "{"@
    } else if token == "DOT"@ {
        "."@
    } else {
        token
    }
}

/// Convert a token label into a human readable string.
pub fn humanize_token(token: &str) -> (text: &str)
    ensures
        text@ == humanized(token@),
{
    if text_eq(token, "RPAREN") {
        ")"
    } else if text_eq(token, "LPAREN") {
        "("
    } else if text_eq(token, "RBRACE") {
        "}"
    } else if text_eq(token, "LBRACE") {
        "{"
    } else if text_eq(token, "DOT") {
        "."
    } else {
        token
    }
}

} // verus!
