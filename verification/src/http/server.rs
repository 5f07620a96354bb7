//! The server description: listen address and port, name, description and
//! server-scope headers, with its document codec.

use vstd::prelude::*;

use crate::errors::AddressError;
use crate::http::header::parse_headers;
use crate::http::header::parse_headers_exec;
use crate::http::header::ser_headers;
use crate::http::header::Header;
use crate::http::header::HeaderV;
use crate::ipaddr::is_valid_ip;
use crate::json::parse_jstring;
use crate::json::parse_num;
use crate::json::ser_nat;
use crate::json::ser_str_field;
use crate::json::ser_string;
use crate::json::skip_ws;
use crate::keys::key_address;
use crate::keys::key_description;
use crate::keys::key_headers;
use crate::keys::key_id;
use crate::keys::key_name;
use crate::keys::key_port;
use crate::keys::key_router_id;

verus! {

#[derive(Debug, PartialEq)]
pub struct Server {
    pub id: String,
    pub router_id: String,
    pub address: String,
    pub port: u16,
    pub name: String,
    pub description: String,
    pub headers: Vec<Header>,
}

/// The mathematical shape of a `Server`.
pub struct ServerV {
    pub id: Seq<char>,
    pub router_id: Seq<char>,
    pub address: Seq<char>,
    pub port: u16,
    pub name: Seq<char>,
    pub description: Seq<char>,
    pub headers: Seq<HeaderV>,
}

impl ServerV {
    /// The listen address is valid.
    pub open spec fn wf(self) -> bool {
        is_valid_ip(self.address)
    }
}

impl View for Server {
    type V = ServerV;

    open spec fn view(&self) -> ServerV {
        ServerV {
            id: self.id@,
            router_id: self.router_id@,
            address: self.address@,
            port: self.port,
            name: self.name@,
            description: self.description@,
            headers: self.headers.deep_view(),
        }
    }
}

impl DeepView for Server {
    type V = ServerV;

    open spec fn deep_view(&self) -> ServerV {
        self@
    }
}

/// How a server's shape reads off its fields, for use inside the crate.
pub(crate) proof fn lemma_server_fields(s: &Server)
    ensures
        s@.id == s.id@,
        s@.router_id == s.router_id@,
        s@.address == s.address@,
        s@.port == s.port,
        s@.name == s.name@,
        s@.description == s.description@,
        s@.headers == s.headers.deep_view(),
{
}

impl Server {
    /// A fresh server bound to the given router, listening on the given
    /// address and port; an invalid address is rejected.
    pub fn new(router_id: &str, address: &str, port: u16) -> (r: Result<Self, AddressError>)
        ensures
            r is Ok <==> is_valid_ip(address@),
            r matches Ok(s) ==> s@.router_id == router_id@ && s@.address == address@ && s@.port
                == port && s@.name.len() == 0 && s@.description.len() == 0 && s@.headers.len() == 0
                && s@.wf(),
            r matches Err(e) ==> e.address@ == address@,
    {
        if !crate::ipaddr::check_ip_str(address) {
            return Err(AddressError { address: String::from_str(address) });
        }
        let s = Server {
            id: crate::ids::fresh_id(),
            router_id: String::from_str(router_id),
            address: String::from_str(address),
            port,
            name: String::new(),
            description: String::new(),
            headers: Vec::new(),
        };
        proof {
            assert(s@.headers =~= Seq::<HeaderV>::empty());
        }
        Ok(s)
    }

    /// Renames the server.
    pub fn set_name(&mut self, name: &str)
        ensures
            final(self)@ == (ServerV { name: name@, ..old(self)@ }),
    {
        self.name = String::from_str(name);
    }

    /// Replaces the server's description.
    pub fn set_description(&mut self, description: &str)
        ensures
            final(self)@ == (ServerV { description: description@, ..old(self)@ }),
    {
        self.description = String::from_str(description);
    }

    /// Adds a header to the server scope.
    pub fn add_header(&mut self, header: Header)
        ensures
            final(self)@ == (ServerV { headers: old(self)@.headers.push(header@), ..old(self)@ }),
    {
        self.headers.push(header);
        proof {
            assert(final(self)@.headers =~= old(self)@.headers.push(header@));
        }
    }
}

// ---------------------------------------------------------------------------
// serialization
// ---------------------------------------------------------------------------
/// A server's form in the document; fields follow the declared order.
#[verifier::opaque]
pub open spec fn ser_server(v: ServerV) -> Seq<char> {
    seq!['{'] + (ser_str_field(key_id(), v.id) + (seq![','] + (ser_str_field(
        key_router_id(),
        v.router_id,
    ) + (seq![','] + (ser_str_field(key_address(), v.address) + (seq![','] + (ser_string(
        key_port(),
    ) + (seq![':'] + (ser_nat(v.port as nat) + (seq![','] + (ser_str_field(key_name(), v.name) + (
    seq![','] + (ser_str_field(key_description(), v.description) + (seq![','] + (ser_string(
        key_headers(),
    ) + (seq![':'] + (ser_headers(v.headers) + seq!['}'])))))))))))))))))
}

/// Appends a server in document form.
#[verifier::rlimit(100)]
pub fn emit_server(out: &mut Vec<char>, v: &Server)
    ensures
        final(out)@ == old(out)@ + ser_server(v@),
{
    proof {
        reveal(ser_server);
        reveal_strlit("id");
        reveal_strlit("routerId");
        reveal_strlit("address");
        reveal_strlit("port");
        reveal_strlit("name");
        reveal_strlit("description");
        reveal_strlit("headers");
        assert("id"@ =~= key_id());
        assert("routerId"@ =~= key_router_id());
        assert("address"@ =~= key_address());
        assert("port"@ =~= key_port());
        assert("name"@ =~= key_name());
        assert("description"@ =~= key_description());
        assert("headers"@ =~= key_headers());
    }
    out.push('{');
    crate::json::emit_str_field(out, "id", v.id.as_str());
    out.push(',');
    crate::json::emit_str_field(out, "routerId", v.router_id.as_str());
    out.push(',');
    crate::json::emit_str_field(out, "address", v.address.as_str());
    out.push(',');
    crate::json::emit_json_string(out, "port");
    out.push(':');
    crate::json::emit_u64(out, v.port as u64);
    out.push(',');
    crate::json::emit_str_field(out, "name", v.name.as_str());
    out.push(',');
    crate::json::emit_str_field(out, "description", v.description.as_str());
    out.push(',');
    crate::json::emit_json_string(out, "headers");
    out.push(':');
    crate::http::header::emit_headers(out, &v.headers);
    out.push('}');
    proof {
        assert(final(out)@ =~= old(out)@ + ser_server(v@));
    }
}

// ---------------------------------------------------------------------------
// parsing
// ---------------------------------------------------------------------------
/// Field values collected so far while reading a server object.
pub struct ServerSlots {
    pub id: Option<Seq<char>>,
    pub router_id: Option<Seq<char>>,
    pub address: Option<Seq<char>>,
    pub port: Option<u16>,
    pub name: Option<Seq<char>>,
    pub description: Option<Seq<char>>,
    pub headers: Option<Seq<HeaderV>>,
}

pub open spec fn server_slots_empty() -> ServerSlots {
    ServerSlots {
        id: None,
        router_id: None,
        address: None,
        port: None,
        name: None,
        description: None,
        headers: None,
    }
}

/// A complete server from filled slots; every field is required.
pub open spec fn finish_server(sl: ServerSlots, j: int) -> Option<(ServerV, int)> {
    if sl.id is Some && sl.router_id is Some && sl.address is Some && sl.port is Some
        && sl.name is Some && sl.description is Some && sl.headers is Some {
        Some(
            (
                ServerV {
                    id: sl.id->Some_0,
                    router_id: sl.router_id->Some_0,
                    address: sl.address->Some_0,
                    port: sl.port->Some_0,
                    name: sl.name->Some_0,
                    description: sl.description->Some_0,
                    headers: sl.headers->Some_0,
                },
                j,
            ),
        )
    } else {
        None
    }
}

/// One `"key": value` pair of a server object, starting at the key's
/// opening quote; a repeated or unknown key, or an invalid listen
/// address, is rejected.
pub open spec fn parse_server_one(s: Seq<char>, i: int, sl: ServerSlots) -> Option<
    (ServerSlots, int),
> {
    match parse_jstring(s, i) {
        Option::None => None,
        Option::Some((k, j)) => {
            let j2 = skip_ws(s, j);
            if !(j2 < s.len() && s[j2] == ':') {
                None
            } else {
                let j3 = skip_ws(s, j2 + 1);
                if k == key_id() {
                    if sl.id is Some {
                        None
                    } else {
                        match parse_jstring(s, j3) {
                            Option::None => None,
                            Option::Some((v, j4)) => Some((ServerSlots { id: Some(v), ..sl }, j4)),
                        }
                    }
                } else if k == key_router_id() {
                    if sl.router_id is Some {
                        None
                    } else {
                        match parse_jstring(s, j3) {
                            Option::None => None,
                            Option::Some((v, j4)) => Some(
                                (ServerSlots { router_id: Some(v), ..sl }, j4),
                            ),
                        }
                    }
                } else if k == key_address() {
                    if sl.address is Some {
                        None
                    } else {
                        match parse_jstring(s, j3) {
                            Option::None => None,
                            Option::Some((v, j4)) => if is_valid_ip(v) {
                                Some((ServerSlots { address: Some(v), ..sl }, j4))
                            } else {
                                None
                            },
                        }
                    }
                } else if k == key_port() {
                    if sl.port is Some {
                        None
                    } else {
                        match parse_num(s, j3) {
                            Option::None => None,
                            Option::Some((n, j4)) => Some(
                                (ServerSlots { port: Some(n as u16), ..sl }, j4),
                            ),
                        }
                    }
                } else if k == key_name() {
                    if sl.name is Some {
                        None
                    } else {
                        match parse_jstring(s, j3) {
                            Option::None => None,
                            Option::Some((v, j4)) => Some(
                                (ServerSlots { name: Some(v), ..sl }, j4),
                            ),
                        }
                    }
                } else if k == key_description() {
                    if sl.description is Some {
                        None
                    } else {
                        match parse_jstring(s, j3) {
                            Option::None => None,
                            Option::Some((v, j4)) => Some(
                                (ServerSlots { description: Some(v), ..sl }, j4),
                            ),
                        }
                    }
                } else if k == key_headers() {
                    if sl.headers is Some {
                        None
                    } else {
                        match parse_headers(s, j3) {
                            Option::None => None,
                            Option::Some((hs, j4)) => Some(
                                (ServerSlots { headers: Some(hs), ..sl }, j4),
                            ),
                        }
                    }
                } else {
                    None
                }
            }
        },
    }
}

/// The fields of a server object, in any order, each at most once.
pub open spec fn parse_server_fields(s: Seq<char>, i: int, sl: ServerSlots, fuel: nat) -> Option<
    (ServerV, int),
>
    decreases fuel,
{
    if fuel == 0 {
        None
    } else {
        match parse_server_one(s, i, sl) {
            Option::None => None,
            Option::Some((sl2, j)) => {
                let j2 = skip_ws(s, j);
                if j2 < s.len() && s[j2] == ',' {
                    parse_server_fields(s, skip_ws(s, j2 + 1), sl2, (fuel - 1) as nat)
                } else if j2 < s.len() && s[j2] == '}' {
                    finish_server(sl2, j2 + 1)
                } else {
                    None
                }
            },
        }
    }
}

/// A server object starting exactly at `i`.
pub open spec fn parse_server(s: Seq<char>, i: int) -> Option<(ServerV, int)> {
    if 0 <= i && i < s.len() && s[i] == '{' {
        let j = skip_ws(s, i + 1);
        if j < s.len() && s[j] == '}' {
            finish_server(server_slots_empty(), j + 1)
        } else {
            parse_server_fields(s, j, server_slots_empty(), 8)
        }
    } else {
        None
    }
}

pub proof fn lemma_server_one_progress(s: Seq<char>, i: int, sl: ServerSlots)
    requires
        parse_server_one(s, i, sl) is Some,
    ensures
        i < parse_server_one(s, i, sl)->Some_0.1 <= s.len(),
{
    crate::json::lemma_jstring_progress(s, i);
    let (k, j) = parse_jstring(s, i)->Some_0;
    crate::json::lemma_skip_ws_bounds(s, j);
    let j2 = skip_ws(s, j);
    crate::json::lemma_skip_ws_bounds(s, j2 + 1);
    let j3 = skip_ws(s, j2 + 1);
    if parse_jstring(s, j3) is Some {
        crate::json::lemma_jstring_progress(s, j3);
    }
    if parse_num(s, j3) is Some {
        crate::json::lemma_num_progress(s, j3);
    }
    if parse_headers(s, j3) is Some {
        crate::http::header::lemma_headers_progress(s, j3);
    }
}

pub proof fn lemma_server_fields_progress(s: Seq<char>, i: int, sl: ServerSlots, fuel: nat)
    requires
        parse_server_fields(s, i, sl, fuel) is Some,
    ensures
        i < parse_server_fields(s, i, sl, fuel)->Some_0.1 <= s.len(),
    decreases fuel,
{
    let (sl2, j) = parse_server_one(s, i, sl)->Some_0;
    lemma_server_one_progress(s, i, sl);
    crate::json::lemma_skip_ws_bounds(s, j);
    let j2 = skip_ws(s, j);
    if j2 < s.len() && s[j2] == ',' {
        crate::json::lemma_skip_ws_bounds(s, j2 + 1);
        lemma_server_fields_progress(s, skip_ws(s, j2 + 1), sl2, (fuel - 1) as nat);
    }
}

pub proof fn lemma_server_progress(s: Seq<char>, i: int)
    requires
        parse_server(s, i) is Some,
    ensures
        i < parse_server(s, i)->Some_0.1 <= s.len(),
{
    crate::json::lemma_skip_ws_bounds(s, i + 1);
    let j = skip_ws(s, i + 1);
    if j < s.len() && s[j] == '}' {
    } else {
        lemma_server_fields_progress(s, j, server_slots_empty(), 8);
    }
}

/// A parsed server is well formed: its address was checked.
pub proof fn lemma_parse_server_wf(s: Seq<char>, i: int)
    requires
        parse_server(s, i) is Some,
    ensures
        parse_server(s, i)->Some_0.0.wf(),
{
    lemma_server_wf_fields(s, skip_ws(s, i + 1), server_slots_empty(), 8);
}

proof fn lemma_server_wf_fields(s: Seq<char>, i: int, sl: ServerSlots, fuel: nat)
    requires
        sl.address matches Some(a) ==> is_valid_ip(a),
    ensures
        parse_server_fields(s, i, sl, fuel) is Some ==> parse_server_fields(
            s,
            i,
            sl,
            fuel,
        )->Some_0.0.wf(),
    decreases fuel,
{
    if fuel > 0 {
        match parse_server_one(s, i, sl) {
            Option::None => {},
            Option::Some((sl2, j)) => {
                let j2 = skip_ws(s, j);
                if j2 < s.len() && s[j2] == ',' {
                    lemma_server_wf_fields(s, skip_ws(s, j2 + 1), sl2, (fuel - 1) as nat);
                }
            },
        }
    }
}

} // verus!

verus! {

// ---------------------------------------------------------------------------
// round trip
// ---------------------------------------------------------------------------
pub open spec fn sv_p1(i: int) -> int {
    i + 1
}

pub open spec fn sv_q1(i: int, v: ServerV) -> int {
    sv_p1(i) + ser_str_field(key_id(), v.id).len()
}

pub open spec fn sv_p2(i: int, v: ServerV) -> int {
    sv_q1(i, v) + 1
}

pub open spec fn sv_q2(i: int, v: ServerV) -> int {
    sv_p2(i, v) + ser_str_field(key_router_id(), v.router_id).len()
}

pub open spec fn sv_p3(i: int, v: ServerV) -> int {
    sv_q2(i, v) + 1
}

pub open spec fn sv_q3(i: int, v: ServerV) -> int {
    sv_p3(i, v) + ser_str_field(key_address(), v.address).len()
}

pub open spec fn sv_p4(i: int, v: ServerV) -> int {
    sv_q3(i, v) + 1
}

pub open spec fn sv_c4(i: int, v: ServerV) -> int {
    sv_p4(i, v) + ser_string(key_port()).len()
}

pub open spec fn sv_v4(i: int, v: ServerV) -> int {
    sv_c4(i, v) + 1
}

pub open spec fn sv_q4(i: int, v: ServerV) -> int {
    sv_v4(i, v) + ser_nat(v.port as nat).len()
}

pub open spec fn sv_p5(i: int, v: ServerV) -> int {
    sv_q4(i, v) + 1
}

pub open spec fn sv_q5(i: int, v: ServerV) -> int {
    sv_p5(i, v) + ser_str_field(key_name(), v.name).len()
}

pub open spec fn sv_p6(i: int, v: ServerV) -> int {
    sv_q5(i, v) + 1
}

pub open spec fn sv_q6(i: int, v: ServerV) -> int {
    sv_p6(i, v) + ser_str_field(key_description(), v.description).len()
}

pub open spec fn sv_p7(i: int, v: ServerV) -> int {
    sv_q6(i, v) + 1
}

pub open spec fn sv_c7(i: int, v: ServerV) -> int {
    sv_p7(i, v) + ser_string(key_headers()).len()
}

pub open spec fn sv_v7(i: int, v: ServerV) -> int {
    sv_c7(i, v) + 1
}

pub open spec fn sv_q7(i: int, v: ServerV) -> int {
    sv_v7(i, v) + ser_headers(v.headers).len()
}

/// What each token parser returns at each piece of a serialized server.
pub open spec fn server_pieces_ok(s: Seq<char>, i: int, v: ServerV) -> bool {
    &&& 0 <= i
    &&& sv_q7(i, v) + 1 <= s.len()
    &&& s[i] == '{'
    &&& s[sv_p1(i)] == '"'
    &&& parse_jstring(s, sv_p1(i)) == Some((key_id(), sv_p1(i) + ser_string(key_id()).len()))
    &&& s[sv_p1(i) + ser_string(key_id()).len()] == ':'
    &&& parse_jstring(s, sv_p1(i) + ser_string(key_id()).len() + 1) == Some((v.id, sv_q1(i, v)))
    &&& s[sv_p1(i) + ser_string(key_id()).len() + 1] == '"'
    &&& s[sv_q1(i, v)] == ','
    &&& s[sv_p2(i, v)] == '"'
    &&& parse_jstring(s, sv_p2(i, v)) == Some(
        (key_router_id(), sv_p2(i, v) + ser_string(key_router_id()).len()),
    )
    &&& s[sv_p2(i, v) + ser_string(key_router_id()).len()] == ':'
    &&& parse_jstring(s, sv_p2(i, v) + ser_string(key_router_id()).len() + 1) == Some(
        (v.router_id, sv_q2(i, v)),
    )
    &&& s[sv_p2(i, v) + ser_string(key_router_id()).len() + 1] == '"'
    &&& s[sv_q2(i, v)] == ','
    &&& s[sv_p3(i, v)] == '"'
    &&& parse_jstring(s, sv_p3(i, v)) == Some(
        (key_address(), sv_p3(i, v) + ser_string(key_address()).len()),
    )
    &&& s[sv_p3(i, v) + ser_string(key_address()).len()] == ':'
    &&& parse_jstring(s, sv_p3(i, v) + ser_string(key_address()).len() + 1) == Some(
        (v.address, sv_q3(i, v)),
    )
    &&& s[sv_p3(i, v) + ser_string(key_address()).len() + 1] == '"'
    &&& s[sv_q3(i, v)] == ','
    &&& s[sv_p4(i, v)] == '"'
    &&& parse_jstring(s, sv_p4(i, v)) == Some((key_port(), sv_c4(i, v)))
    &&& s[sv_c4(i, v)] == ':'
    &&& s[sv_v4(i, v)] == ser_nat(v.port as nat)[0]
    &&& parse_num(s, sv_v4(i, v)) == Some((v.port as nat, sv_q4(i, v)))
    &&& s[sv_q4(i, v)] == ','
    &&& s[sv_p5(i, v)] == '"'
    &&& parse_jstring(s, sv_p5(i, v)) == Some(
        (key_name(), sv_p5(i, v) + ser_string(key_name()).len()),
    )
    &&& s[sv_p5(i, v) + ser_string(key_name()).len()] == ':'
    &&& parse_jstring(s, sv_p5(i, v) + ser_string(key_name()).len() + 1) == Some(
        (v.name, sv_q5(i, v)),
    )
    &&& s[sv_p5(i, v) + ser_string(key_name()).len() + 1] == '"'
    &&& s[sv_q5(i, v)] == ','
    &&& s[sv_p6(i, v)] == '"'
    &&& parse_jstring(s, sv_p6(i, v)) == Some(
        (key_description(), sv_p6(i, v) + ser_string(key_description()).len()),
    )
    &&& s[sv_p6(i, v) + ser_string(key_description()).len()] == ':'
    &&& parse_jstring(s, sv_p6(i, v) + ser_string(key_description()).len() + 1) == Some(
        (v.description, sv_q6(i, v)),
    )
    &&& s[sv_p6(i, v) + ser_string(key_description()).len() + 1] == '"'
    &&& s[sv_q6(i, v)] == ','
    &&& s[sv_p7(i, v)] == '"'
    &&& parse_jstring(s, sv_p7(i, v)) == Some((key_headers(), sv_c7(i, v)))
    &&& s[sv_c7(i, v)] == ':'
    &&& s[sv_v7(i, v)] == '['
    &&& parse_headers(s, sv_v7(i, v)) == Some((v.headers, sv_q7(i, v)))
    &&& s[sv_q7(i, v)] == '}'
}

/// Locates every piece of a serialized server and runs the token parsers
/// on them.
#[verifier::rlimit(100)]
pub proof fn lemma_server_pieces(s: Seq<char>, i: int, v: ServerV)
    requires
        0 <= i,
        i + ser_server(v).len() <= s.len(),
        s.subrange(i, i + ser_server(v).len()) == ser_server(v),
    ensures
        server_pieces_ok(s, i, v),
        sv_q7(i, v) + 1 == i + ser_server(v).len(),
{
    reveal(ser_server);
    let f1 = ser_str_field(key_id(), v.id);
    let f2 = ser_str_field(key_router_id(), v.router_id);
    let f3 = ser_str_field(key_address(), v.address);
    let k4 = ser_string(key_port());
    let n4 = ser_nat(v.port as nat);
    let f5 = ser_str_field(key_name(), v.name);
    let f6 = ser_str_field(key_description(), v.description);
    let k7 = ser_string(key_headers());
    let h7 = ser_headers(v.headers);
    let r1 = f1 + (seq![','] + (f2 + (seq![','] + (f3 + (seq![','] + (k4 + (seq![':'] + (n4 + (
    seq![','] + (f5 + (seq![','] + (f6 + (seq![','] + (k7 + (seq![':'] + (h7
        + seq!['}']))))))))))))))));
    crate::json::lemma_concat_subrange(s, i, seq!['{'], r1);
    assert(s[i] == s.subrange(i, i + 1)[0]);
    let p1 = i + 1;
    let r2 = seq![','] + (f2 + (seq![','] + (f3 + (seq![','] + (k4 + (seq![':'] + (n4 + (seq![',']
        + (f5 + (seq![','] + (f6 + (seq![','] + (k7 + (seq![':'] + (h7 + seq!['}'])))))))))))))));
    crate::json::lemma_concat_subrange(s, p1, f1, r2);
    crate::json::lemma_step_str_field(s, p1, key_id(), v.id);
    let q1 = p1 + f1.len();
    let r3 = f2 + (seq![','] + (f3 + (seq![','] + (k4 + (seq![':'] + (n4 + (seq![','] + (f5 + (
    seq![','] + (f6 + (seq![','] + (k7 + (seq![':'] + (h7 + seq!['}'])))))))))))))) ;
    crate::json::lemma_concat_subrange(s, q1, seq![','], r3);
    assert(s[q1] == s.subrange(q1, q1 + 1)[0]);
    let p2 = q1 + 1;
    let r4 = seq![','] + (f3 + (seq![','] + (k4 + (seq![':'] + (n4 + (seq![','] + (f5 + (seq![',']
        + (f6 + (seq![','] + (k7 + (seq![':'] + (h7 + seq!['}'])))))))))))));
    crate::json::lemma_concat_subrange(s, p2, f2, r4);
    crate::json::lemma_step_str_field(s, p2, key_router_id(), v.router_id);
    let q2 = p2 + f2.len();
    let r5 = f3 + (seq![','] + (k4 + (seq![':'] + (n4 + (seq![','] + (f5 + (seq![','] + (f6 + (
    seq![','] + (k7 + (seq![':'] + (h7 + seq!['}']))))))))))));
    crate::json::lemma_concat_subrange(s, q2, seq![','], r5);
    assert(s[q2] == s.subrange(q2, q2 + 1)[0]);
    let p3 = q2 + 1;
    let r6 = seq![','] + (k4 + (seq![':'] + (n4 + (seq![','] + (f5 + (seq![','] + (f6 + (seq![',']
        + (k7 + (seq![':'] + (h7 + seq!['}'])))))))))));
    crate::json::lemma_concat_subrange(s, p3, f3, r6);
    crate::json::lemma_step_str_field(s, p3, key_address(), v.address);
    let q3 = p3 + f3.len();
    let r7 = k4 + (seq![':'] + (n4 + (seq![','] + (f5 + (seq![','] + (f6 + (seq![','] + (k7 + (
    seq![':'] + (h7 + seq!['}'])))))))))) ;
    crate::json::lemma_concat_subrange(s, q3, seq![','], r7);
    assert(s[q3] == s.subrange(q3, q3 + 1)[0]);
    let p4 = q3 + 1;
    let r8 = seq![':'] + (n4 + (seq![','] + (f5 + (seq![','] + (f6 + (seq![','] + (k7 + (seq![':']
        + (h7 + seq!['}'])))))))));
    crate::json::lemma_concat_subrange(s, p4, k4, r8);
    crate::json::lemma_parse_ser_string(s, p4, key_port());
    assert(s[p4] == s.subrange(p4, p4 + k4.len())[0]);
    let c4 = p4 + k4.len();
    let r9 = n4 + (seq![','] + (f5 + (seq![','] + (f6 + (seq![','] + (k7 + (seq![':'] + (h7
        + seq!['}']))))))));
    crate::json::lemma_concat_subrange(s, c4, seq![':'], r9);
    assert(s[c4] == s.subrange(c4, c4 + 1)[0]);
    let v4 = c4 + 1;
    let r10 = seq![','] + (f5 + (seq![','] + (f6 + (seq![','] + (k7 + (seq![':'] + (h7
        + seq!['}'])))))));
    crate::json::lemma_concat_subrange(s, v4, n4, r10);
    crate::json::lemma_ser_nat_digits(v.port as nat);
    let q4 = v4 + n4.len();
    let r11 = f5 + (seq![','] + (f6 + (seq![','] + (k7 + (seq![':'] + (h7 + seq!['}']))))));
    crate::json::lemma_concat_subrange(s, q4, seq![','], r11);
    assert(s[q4] == s.subrange(q4, q4 + 1)[0]);
    assert(!crate::text::is_digit(s[q4]));
    crate::json::lemma_parse_ser_num(s, v4, v.port as nat);
    assert(s[v4] == s.subrange(v4, v4 + n4.len())[0]);
    let p5 = q4 + 1;
    let r12 = seq![','] + (f6 + (seq![','] + (k7 + (seq![':'] + (h7 + seq!['}'])))));
    crate::json::lemma_concat_subrange(s, p5, f5, r12);
    crate::json::lemma_step_str_field(s, p5, key_name(), v.name);
    let q5 = p5 + f5.len();
    let r13 = f6 + (seq![','] + (k7 + (seq![':'] + (h7 + seq!['}']))));
    crate::json::lemma_concat_subrange(s, q5, seq![','], r13);
    assert(s[q5] == s.subrange(q5, q5 + 1)[0]);
    let p6 = q5 + 1;
    let r14 = seq![','] + (k7 + (seq![':'] + (h7 + seq!['}'])));
    crate::json::lemma_concat_subrange(s, p6, f6, r14);
    crate::json::lemma_step_str_field(s, p6, key_description(), v.description);
    let q6 = p6 + f6.len();
    let r15 = k7 + (seq![':'] + (h7 + seq!['}']));
    crate::json::lemma_concat_subrange(s, q6, seq![','], r15);
    assert(s[q6] == s.subrange(q6, q6 + 1)[0]);
    let p7 = q6 + 1;
    let r16 = seq![':'] + (h7 + seq!['}']);
    crate::json::lemma_concat_subrange(s, p7, k7, r16);
    crate::json::lemma_parse_ser_string(s, p7, key_headers());
    assert(s[p7] == s.subrange(p7, p7 + k7.len())[0]);
    let c7 = p7 + k7.len();
    let r17 = h7 + seq!['}'];
    crate::json::lemma_concat_subrange(s, c7, seq![':'], r17);
    assert(s[c7] == s.subrange(c7, c7 + 1)[0]);
    let v7 = c7 + 1;
    crate::json::lemma_concat_subrange(s, v7, h7, seq!['}']);
    crate::http::header::lemma_parse_ser_headers(s, v7, v.headers);
    assert(s[v7] == s.subrange(v7, v7 + h7.len())[0]);
    let q7 = v7 + h7.len();
    assert(s[q7] == s.subrange(q7, q7 + 1)[0]);
}

/// The server parser inverts the server serializer on well-formed
/// servers.
#[verifier::rlimit(100)]
pub proof fn lemma_parse_ser_server(s: Seq<char>, i: int, v: ServerV)
    requires
        v.wf(),
        0 <= i,
        i + ser_server(v).len() <= s.len(),
        s.subrange(i, i + ser_server(v).len()) == ser_server(v),
    ensures
        parse_server(s, i) == Some((v, i + ser_server(v).len())),
{
    lemma_server_pieces(s, i, v);
    assert(key_id().len() == 2);
    assert(key_router_id().len() == 8);
    assert(key_address().len() == 7);
    assert(key_port().len() == 4);
    assert(key_name().len() == 4);
    assert(key_description().len() == 11);
    assert(key_headers().len() == 7);
    assert(key_port()[0] == 'p');
    assert(key_name()[0] == 'n');
    assert(key_port() != key_name());
    assert(key_address()[0] == 'a');
    assert(key_headers()[0] == 'h');
    assert(key_address() != key_headers());
    let p1 = sv_p1(i);
    let q1 = sv_q1(i, v);
    let p2 = sv_p2(i, v);
    let q2 = sv_q2(i, v);
    let p3 = sv_p3(i, v);
    let q3 = sv_q3(i, v);
    let p4 = sv_p4(i, v);
    let c4 = sv_c4(i, v);
    let v4 = sv_v4(i, v);
    let q4 = sv_q4(i, v);
    let p5 = sv_p5(i, v);
    let q5 = sv_q5(i, v);
    let p6 = sv_p6(i, v);
    let q6 = sv_q6(i, v);
    let p7 = sv_p7(i, v);
    let c7 = sv_c7(i, v);
    let v7 = sv_v7(i, v);
    let q7 = sv_q7(i, v);
    crate::json::lemma_ser_nat_digits(v.port as nat);
    let sl0 = server_slots_empty();
    let sl1 = ServerSlots { id: Some(v.id), ..sl0 };
    let sl2 = ServerSlots { router_id: Some(v.router_id), ..sl1 };
    let sl3 = ServerSlots { address: Some(v.address), ..sl2 };
    let sl4 = ServerSlots { port: Some(v.port), ..sl3 };
    let sl5 = ServerSlots { name: Some(v.name), ..sl4 };
    let sl6 = ServerSlots { description: Some(v.description), ..sl5 };
    let sl7 = ServerSlots { headers: Some(v.headers), ..sl6 };
    assert(skip_ws(s, p1) == p1);
    assert(skip_ws(s, p1 + ser_string(key_id()).len()) == p1 + ser_string(key_id()).len());
    assert(skip_ws(s, p1 + ser_string(key_id()).len() + 1) == p1 + ser_string(key_id()).len() + 1);
    assert(parse_server_one(s, p1, sl0) == Some((sl1, q1)));
    assert(skip_ws(s, q1) == q1);
    assert(skip_ws(s, p2) == p2);
    assert(skip_ws(s, p2 + ser_string(key_router_id()).len()) == p2 + ser_string(
        key_router_id(),
    ).len());
    assert(skip_ws(s, p2 + ser_string(key_router_id()).len() + 1) == p2 + ser_string(
        key_router_id(),
    ).len() + 1);
    assert(parse_server_one(s, p2, sl1) == Some((sl2, q2)));
    assert(skip_ws(s, q2) == q2);
    assert(skip_ws(s, p3) == p3);
    assert(skip_ws(s, p3 + ser_string(key_address()).len()) == p3 + ser_string(
        key_address(),
    ).len());
    assert(skip_ws(s, p3 + ser_string(key_address()).len() + 1) == p3 + ser_string(
        key_address(),
    ).len() + 1);
    assert(is_valid_ip(v.address));
    assert(parse_server_one(s, p3, sl2) == Some((sl3, q3)));
    assert(skip_ws(s, q3) == q3);
    assert(skip_ws(s, p4) == p4);
    assert(skip_ws(s, c4) == c4);
    assert(crate::text::is_digit(s[v4]));
    assert(skip_ws(s, v4) == v4);
    assert((v.port as nat) as u16 == v.port);
    assert(parse_server_one(s, p4, sl3) == Some((sl4, q4)));
    assert(skip_ws(s, q4) == q4);
    assert(skip_ws(s, p5) == p5);
    assert(skip_ws(s, p5 + ser_string(key_name()).len()) == p5 + ser_string(key_name()).len());
    assert(skip_ws(s, p5 + ser_string(key_name()).len() + 1) == p5 + ser_string(key_name()).len()
        + 1);
    assert(parse_server_one(s, p5, sl4) == Some((sl5, q5)));
    assert(skip_ws(s, q5) == q5);
    assert(skip_ws(s, p6) == p6);
    assert(skip_ws(s, p6 + ser_string(key_description()).len()) == p6 + ser_string(
        key_description(),
    ).len());
    assert(skip_ws(s, p6 + ser_string(key_description()).len() + 1) == p6 + ser_string(
        key_description(),
    ).len() + 1);
    assert(parse_server_one(s, p6, sl5) == Some((sl6, q6)));
    assert(skip_ws(s, q6) == q6);
    assert(skip_ws(s, p7) == p7);
    assert(skip_ws(s, c7) == c7);
    assert(skip_ws(s, v7) == v7);
    assert(parse_server_one(s, p7, sl6) == Some((sl7, q7)));
    assert(skip_ws(s, q7) == q7);
    assert(parse_server_fields(s, p7, sl6, 2) == finish_server(sl7, q7 + 1));
    assert(finish_server(sl7, q7 + 1) == Some((v, q7 + 1)));
    assert(parse_server_fields(s, p6, sl5, 3) == parse_server_fields(s, p7, sl6, 2));
    assert(parse_server_fields(s, p5, sl4, 4) == parse_server_fields(s, p6, sl5, 3));
    assert(parse_server_fields(s, p4, sl3, 5) == parse_server_fields(s, p5, sl4, 4));
    assert(parse_server_fields(s, p3, sl2, 6) == parse_server_fields(s, p4, sl3, 5));
    assert(parse_server_fields(s, p2, sl1, 7) == parse_server_fields(s, p3, sl2, 6));
    assert(parse_server_fields(s, p1, sl0, 8) == parse_server_fields(s, p2, sl1, 7));
    assert(q7 + 1 == i + ser_server(v).len());
    assert(s[i] == '{');
    assert(skip_ws(s, i + 1) == p1);
    assert(parse_server(s, i) == parse_server_fields(s, p1, sl0, 8));
}

// ---------------------------------------------------------------------------
// executable parser
// ---------------------------------------------------------------------------
pub open spec fn slot_view(o: Option<String>) -> Option<Seq<char>> {
    match o {
        Option::Some(x) => Some(x@),
        Option::None => None,
    }
}

pub open spec fn slot_view_headers(o: Option<Vec<Header>>) -> Option<Seq<HeaderV>> {
    match o {
        Option::Some(x) => Some(x.deep_view()),
        Option::None => None,
    }
}

/// Reads a server object starting exactly at `i`; on failure reports the
/// position where parsing stopped.
pub fn parse_server_exec(s: &Vec<char>, i: usize) -> (r: Result<(Server, usize), usize>)
    requires
        i <= s@.len(),
    ensures
        r matches Ok(p) ==> parse_server(s@, i as int) == Some((p.0@, p.1 as int)) && i < p.1
            <= s@.len(),
        r is Err ==> parse_server(s@, i as int) is None,
{
    if i == s.len() || s[i] != '{' {
        return Err(i);
    }
    let mut k: usize = crate::json::ws_to(s, i + 1);
    if k < s.len() && s[k] == '}' {
        return Err(k);
    }
    let mut id: Option<String> = None;
    let mut router_id: Option<String> = None;
    let mut address: Option<String> = None;
    let mut port: Option<u16> = None;
    let mut name: Option<String> = None;
    let mut description: Option<String> = None;
    let mut headers: Option<Vec<Header>> = None;
    let mut fuel: u8 = 8;
    loop
        invariant
            i < k <= s@.len(),
            parse_server(s@, i as int) == parse_server_fields(
                s@,
                k as int,
                (ServerSlots {
                    id: slot_view(id),
                    router_id: slot_view(router_id),
                    address: slot_view(address),
                    port: port,
                    name: slot_view(name),
                    description: slot_view(description),
                    headers: slot_view_headers(headers),
                }),
                fuel as nat,
            ),
        decreases fuel,
    {
        proof {
            reveal_strlit("id");
            reveal_strlit("routerId");
            reveal_strlit("address");
            reveal_strlit("port");
            reveal_strlit("name");
            reveal_strlit("description");
            reveal_strlit("headers");
            assert("id"@ =~= key_id());
            assert("routerId"@ =~= key_router_id());
            assert("address"@ =~= key_address());
            assert("port"@ =~= key_port());
            assert("name"@ =~= key_name());
            assert("description"@ =~= key_description());
            assert("headers"@ =~= key_headers());
        }
        if fuel == 0 {
            return Err(k);
        }
        let (kt, j) = match crate::json::parse_string_exec(s, k) {
            Ok(p) => p,
            Err(e) => {
                return Err(e);
            },
        };
        let j2 = crate::json::ws_to(s, j);
        if !(j2 < s.len() && s[j2] == ':') {
            return Err(j2);
        }
        let j3 = crate::json::ws_to(s, j2 + 1);
        let jnext: usize;
        if crate::text::chars_eq_str(&kt, "id") {
            if id.is_some() {
                return Err(j3);
            }
            let (v, j4) = match crate::json::parse_string_exec(s, j3) {
                Ok(p) => p,
                Err(e) => {
                    return Err(e);
                },
            };
            id = Some(crate::text::chars_to_string(&v));
            jnext = j4;
        } else if crate::text::chars_eq_str(&kt, "routerId") {
            if router_id.is_some() {
                return Err(j3);
            }
            let (v, j4) = match crate::json::parse_string_exec(s, j3) {
                Ok(p) => p,
                Err(e) => {
                    return Err(e);
                },
            };
            router_id = Some(crate::text::chars_to_string(&v));
            jnext = j4;
        } else if crate::text::chars_eq_str(&kt, "address") {
            if address.is_some() {
                return Err(j3);
            }
            let (v, j4) = match crate::json::parse_string_exec(s, j3) {
                Ok(p) => p,
                Err(e) => {
                    return Err(e);
                },
            };
            if !crate::ipaddr::check_ip_chars(&v) {
                return Err(j3);
            }
            address = Some(crate::text::chars_to_string(&v));
            jnext = j4;
        } else if crate::text::chars_eq_str(&kt, "port") {
            if port.is_some() {
                return Err(j3);
            }
            let (v, j4) = match crate::json::parse_u16_exec(s, j3) {
                Ok(p) => p,
                Err(e) => {
                    return Err(e);
                },
            };
            port = Some(v);
            jnext = j4;
        } else if crate::text::chars_eq_str(&kt, "name") {
            if name.is_some() {
                return Err(j3);
            }
            let (v, j4) = match crate::json::parse_string_exec(s, j3) {
                Ok(p) => p,
                Err(e) => {
                    return Err(e);
                },
            };
            name = Some(crate::text::chars_to_string(&v));
            jnext = j4;
        } else if crate::text::chars_eq_str(&kt, "description") {
            if description.is_some() {
                return Err(j3);
            }
            let (v, j4) = match crate::json::parse_string_exec(s, j3) {
                Ok(p) => p,
                Err(e) => {
                    return Err(e);
                },
            };
            description = Some(crate::text::chars_to_string(&v));
            jnext = j4;
        } else if crate::text::chars_eq_str(&kt, "headers") {
            if headers.is_some() {
                return Err(j3);
            }
            let (v, j4) = match parse_headers_exec(s, j3) {
                Ok(p) => p,
                Err(e) => {
                    return Err(e);
                },
            };
            headers = Some(v);
            jnext = j4;
        } else {
            return Err(k);
        }
        let j5 = crate::json::ws_to(s, jnext);
        if j5 < s.len() && s[j5] == ',' {
            k = crate::json::ws_to(s, j5 + 1);
            fuel = fuel - 1;
        } else if j5 < s.len() && s[j5] == '}' {
            match (id, router_id, address, port, name, description, headers) {
                (Some(a), Some(b), Some(c), Some(d), Some(e), Some(f), Some(g)) => {
                    let server = Server {
                        id: a,
                        router_id: b,
                        address: c,
                        port: d,
                        name: e,
                        description: f,
                        headers: g,
                    };
                    return Ok((server, j5 + 1));
                },
                _ => {
                    return Err(j5);
                },
            }
        } else {
            return Err(j5);
        }
    }
}

} // verus!

verus! {

/// A serialized server always begins with an opening brace.
pub proof fn lemma_ser_server_first(v: ServerV)
    ensures
        ser_server(v).len() > 0,
        ser_server(v)[0] == '{',
{
    reveal(ser_server);
}

} // verus!

verus! {

/// A whole document holding one server, surrounded by nothing but
/// whitespace.
pub open spec fn server_document(s: Seq<char>) -> Option<ServerV> {
    let j = skip_ws(s, 0);
    match parse_server(s, j) {
        Option::None => None,
        Option::Some((v, j2)) => if j2 <= s.len() && skip_ws(s, j2) == s.len() {
            Some(v)
        } else {
            None
        },
    }
}

impl Server {
    /// Reads one server from a document; an invalid listen address is
    /// rejected.
    pub fn from_json_str(data: &str) -> (r: Result<Server, crate::errors::ConfigError>)
        ensures
            r matches Ok(v) ==> server_document(data@) == Some(v@) && v@.wf(),
            r is Err ==> server_document(data@) is None,
    {
        let s = crate::text::str_to_chars(data);
        let j = crate::json::ws_to(&s, 0);
        match parse_server_exec(&s, j) {
            Err(e) => Err(crate::errors::config_error_at(&s, e, "malformed server document")),
            Ok((v, j2)) => {
                let j3 = crate::json::ws_to(&s, j2);
                if j3 != s.len() {
                    return Err(
                        crate::errors::config_error_at(
                            &s,
                            j3,
                            "unexpected content after the server document",
                        ),
                    );
                }
                proof {
                    lemma_parse_server_wf(s@, j as int);
                }
                Ok(v)
            },
        }
    }
}

} // verus!
