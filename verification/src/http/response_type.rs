//! Whether a response body is plain text or a JSON payload.

use vstd::prelude::*;

verus! {

#[derive(PartialEq, Eq, Structural, Clone, Copy, Debug)]
pub enum ResponseType {
    Text,
    Json,
}

impl Default for ResponseType {
    fn default() -> (r: Self)
        ensures
            r == ResponseType::Text,
    {
        ResponseType::Text
    }
}

/// The type's form in the document.
pub open spec fn rtype_tok(t: ResponseType) -> Seq<char> {
    match t {
        ResponseType::Text => seq!['t', 'e', 'x', 't'],
        ResponseType::Json => seq!['j', 's', 'o', 'n'],
    }
}

pub open spec fn rtype_of_tok(t: Seq<char>) -> Option<ResponseType> {
    if t == rtype_tok(ResponseType::Text) {
        Some(ResponseType::Text)
    } else if t == rtype_tok(ResponseType::Json) {
        Some(ResponseType::Json)
    } else {
        None
    }
}

pub proof fn lemma_rtype_tok_round_trip(t: ResponseType)
    ensures
        rtype_of_tok(rtype_tok(t)) == Some(t),
{
}

impl ResponseType {
    /// The type named by the collected characters, if any.
    pub fn from_chars(t: &Vec<char>) -> (r: Option<ResponseType>)
        ensures
            r == rtype_of_tok(t@),
    {
        proof {
            reveal_strlit("text");
            reveal_strlit("json");
            assert("text"@ =~= rtype_tok(ResponseType::Text));
            assert("json"@ =~= rtype_tok(ResponseType::Json));
        }
        if crate::text::chars_eq_str(t, "text") {
            Some(ResponseType::Text)
        } else if crate::text::chars_eq_str(t, "json") {
            Some(ResponseType::Json)
        } else {
            None
        }
    }
}

} // verus!
