//! Field names of the configuration document, as character sequences.

use vstd::prelude::*;

verus! {

pub open spec fn key_id() -> Seq<char> {
    seq!['i', 'd']
}

pub open spec fn key_key() -> Seq<char> {
    seq!['k', 'e', 'y']
}

pub open spec fn key_value() -> Seq<char> {
    seq!['v', 'a', 'l', 'u', 'e']
}

pub open spec fn key_active() -> Seq<char> {
    seq!['a', 'c', 't', 'i', 'v', 'e']
}

pub open spec fn key_name() -> Seq<char> {
    seq!['n', 'a', 'm', 'e']
}

pub open spec fn key_status() -> Seq<char> {
    seq!['s', 't', 'a', 't', 'u', 's']
}

pub open spec fn key_response() -> Seq<char> {
    seq!['r', 'e', 's', 'p', 'o', 'n', 's', 'e']
}

pub open spec fn key_response_type() -> Seq<char> {
    seq!['r', 'e', 's', 'p', 'o', 'n', 's', 'e', 'T', 'y', 'p', 'e']
}

pub open spec fn key_headers() -> Seq<char> {
    seq!['h', 'e', 'a', 'd', 'e', 'r', 's']
}

pub open spec fn key_path() -> Seq<char> {
    seq!['p', 'a', 't', 'h']
}

pub open spec fn key_method() -> Seq<char> {
    seq!['m', 'e', 't', 'h', 'o', 'd']
}

pub open spec fn key_responses() -> Seq<char> {
    seq!['r', 'e', 's', 'p', 'o', 'n', 's', 'e', 's']
}

pub open spec fn key_active_response() -> Seq<char> {
    seq!['a', 'c', 't', 'i', 'v', 'e', 'R', 'e', 's', 'p', 'o', 'n', 's', 'e']
}

pub open spec fn key_routes() -> Seq<char> {
    seq!['r', 'o', 'u', 't', 'e', 's']
}

pub open spec fn key_server_id() -> Seq<char> {
    seq!['s', 'e', 'r', 'v', 'e', 'r', 'I', 'd']
}

pub open spec fn key_router_id() -> Seq<char> {
    seq!['r', 'o', 'u', 't', 'e', 'r', 'I', 'd']
}

pub open spec fn key_address() -> Seq<char> {
    seq!['a', 'd', 'd', 'r', 'e', 's', 's']
}

pub open spec fn key_port() -> Seq<char> {
    seq!['p', 'o', 'r', 't']
}

pub open spec fn key_description() -> Seq<char> {
    seq!['d', 'e', 's', 'c', 'r', 'i', 'p', 't', 'i', 'o', 'n']
}

pub open spec fn key_server() -> Seq<char> {
    seq!['s', 'e', 'r', 'v', 'e', 'r']
}

pub open spec fn key_router() -> Seq<char> {
    seq!['r', 'o', 'u', 't', 'e', 'r']
}

} // verus!
