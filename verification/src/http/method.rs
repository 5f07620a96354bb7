//! The standard HTTP verbs a route can be bound to.

use vstd::prelude::*;

verus! {

#[derive(PartialEq, Eq, Structural, Clone, Copy, Debug)]
pub enum Method {
    GET,
    DELETE,
    POST,
    PUT,
    HEAD,
    CONNECT,
    OPTIONS,
    TRACE,
    PATCH,
}

/// The verb's name, which is also its form in the document.
pub open spec fn method_tok(m: Method) -> Seq<char> {
    match m {
        Method::GET => seq!['G', 'E', 'T'],
        Method::DELETE => seq!['D', 'E', 'L', 'E', 'T', 'E'],
        Method::POST => seq!['P', 'O', 'S', 'T'],
        Method::PUT => seq!['P', 'U', 'T'],
        Method::HEAD => seq!['H', 'E', 'A', 'D'],
        Method::CONNECT => seq!['C', 'O', 'N', 'N', 'E', 'C', 'T'],
        Method::OPTIONS => seq!['O', 'P', 'T', 'I', 'O', 'N', 'S'],
        Method::TRACE => seq!['T', 'R', 'A', 'C', 'E'],
        Method::PATCH => seq!['P', 'A', 'T', 'C', 'H'],
    }
}

pub open spec fn method_of_tok(t: Seq<char>) -> Option<Method> {
    if t == method_tok(Method::GET) {
        Some(Method::GET)
    } else if t == method_tok(Method::DELETE) {
        Some(Method::DELETE)
    } else if t == method_tok(Method::POST) {
        Some(Method::POST)
    } else if t == method_tok(Method::PUT) {
        Some(Method::PUT)
    } else if t == method_tok(Method::HEAD) {
        Some(Method::HEAD)
    } else if t == method_tok(Method::CONNECT) {
        Some(Method::CONNECT)
    } else if t == method_tok(Method::OPTIONS) {
        Some(Method::OPTIONS)
    } else if t == method_tok(Method::TRACE) {
        Some(Method::TRACE)
    } else if t == method_tok(Method::PATCH) {
        Some(Method::PATCH)
    } else {
        None
    }
}

pub proof fn lemma_method_tok_round_trip(m: Method)
    ensures
        method_of_tok(method_tok(m)) == Some(m),
{
    match m {
        Method::GET => {
            assert(method_tok(Method::GET) != method_tok(Method::DELETE));
        },
        _ => {},
    }
}

impl Method {
    /// The verb's name, as it would be printed.
    pub fn name(&self) -> (s: String)
        ensures
            s@ == method_tok(*self),
    {
        match self {
            Method::GET => {
                proof {
                    reveal_strlit("GET");
                }
                String::from_str("GET")
            },
            Method::DELETE => {
                proof {
                    reveal_strlit("DELETE");
                }
                String::from_str("DELETE")
            },
            Method::POST => {
                proof {
                    reveal_strlit("POST");
                }
                String::from_str("POST")
            },
            Method::PUT => {
                proof {
                    reveal_strlit("PUT");
                }
                String::from_str("PUT")
            },
            Method::HEAD => {
                proof {
                    reveal_strlit("HEAD");
                }
                String::from_str("HEAD")
            },
            Method::CONNECT => {
                proof {
                    reveal_strlit("CONNECT");
                }
                String::from_str("CONNECT")
            },
            Method::OPTIONS => {
                proof {
                    reveal_strlit("OPTIONS");
                }
                String::from_str("OPTIONS")
            },
            Method::TRACE => {
                proof {
                    reveal_strlit("TRACE");
                }
                String::from_str("TRACE")
            },
            Method::PATCH => {
                proof {
                    reveal_strlit("PATCH");
                }
                String::from_str("PATCH")
            },
        }
    }

    /// The verb named by the collected characters, if any.
    pub fn from_chars(t: &Vec<char>) -> (r: Option<Method>)
        ensures
            r == method_of_tok(t@),
    {
        proof {
            reveal_strlit("GET");
            reveal_strlit("DELETE");
            reveal_strlit("POST");
            reveal_strlit("PUT");
            reveal_strlit("HEAD");
            reveal_strlit("CONNECT");
            reveal_strlit("OPTIONS");
            reveal_strlit("TRACE");
            reveal_strlit("PATCH");
            assert("GET"@ =~= method_tok(Method::GET));
            assert("DELETE"@ =~= method_tok(Method::DELETE));
            assert("POST"@ =~= method_tok(Method::POST));
            assert("PUT"@ =~= method_tok(Method::PUT));
            assert("HEAD"@ =~= method_tok(Method::HEAD));
            assert("CONNECT"@ =~= method_tok(Method::CONNECT));
            assert("OPTIONS"@ =~= method_tok(Method::OPTIONS));
            assert("TRACE"@ =~= method_tok(Method::TRACE));
            assert("PATCH"@ =~= method_tok(Method::PATCH));
        }
        if crate::text::chars_eq_str(t, "GET") {
            Some(Method::GET)
        } else if crate::text::chars_eq_str(t, "DELETE") {
            Some(Method::DELETE)
        } else if crate::text::chars_eq_str(t, "POST") {
            Some(Method::POST)
        } else if crate::text::chars_eq_str(t, "PUT") {
            Some(Method::PUT)
        } else if crate::text::chars_eq_str(t, "HEAD") {
            Some(Method::HEAD)
        } else if crate::text::chars_eq_str(t, "CONNECT") {
            Some(Method::CONNECT)
        } else if crate::text::chars_eq_str(t, "OPTIONS") {
            Some(Method::OPTIONS)
        } else if crate::text::chars_eq_str(t, "TRACE") {
            Some(Method::TRACE)
        } else if crate::text::chars_eq_str(t, "PATCH") {
            Some(Method::PATCH)
        } else {
            None
        }
    }
}

} // verus!
