//! The persisted root of the configuration: one server and its router,
//! with load and save in document form and a proved round trip.

use vstd::prelude::*;

use crate::errors::AddressError;
use crate::errors::ConfigError;
use crate::http::router::parse_router;
use crate::http::router::parse_router_exec;
use crate::http::router::ser_router;
use crate::http::router::Router;
use crate::http::router::RouterV;
use crate::http::server::parse_server;
use crate::http::server::parse_server_exec;
use crate::http::server::ser_server;
use crate::http::server::Server;
use crate::http::server::ServerV;
use crate::json::parse_jstring;
use crate::json::ser_string;
use crate::json::skip_ws;
use crate::keys::key_router;
use crate::keys::key_server;

verus! {

#[derive(Debug, PartialEq)]
pub struct ServerInfo {
    pub server: Server,
    pub router: Router,
}

/// The mathematical shape of a `ServerInfo`.
pub struct ServerInfoV {
    pub server: ServerV,
    pub router: RouterV,
}

impl ServerInfoV {
    /// The server's address is valid and every route keeps its selection
    /// invariant.
    pub open spec fn wf(self) -> bool {
        self.server.wf() && self.router.wf()
    }
}

impl View for ServerInfo {
    type V = ServerInfoV;

    open spec fn view(&self) -> ServerInfoV {
        ServerInfoV { server: self.server@, router: self.router@ }
    }
}

impl DeepView for ServerInfo {
    type V = ServerInfoV;

    open spec fn deep_view(&self) -> ServerInfoV {
        self@
    }
}

/// The address a fresh configuration listens on.
pub open spec fn default_address() -> Seq<char> {
    "127.0.0.1"@
}

impl ServerInfo {
    /// A fresh configuration: loopback address, the fixed default port,
    /// empty name and description, no routes, server and router paired.
    pub fn new() -> (r: Result<Self, AddressError>)
        ensures
            r is Ok,
            r matches Ok(si) ==> si@.server.address == default_address() && si@.server.port == 8080
                && si@.server.name.len() == 0 && si@.server.description.len() == 0
                && si@.server.headers.len() == 0 && si@.router.routes.len() == 0
                && si@.server.router_id == si@.router.id && si@.router.server_id == Some(
                si@.server.id,
            ) && si@.wf(),
    {
        proof {
            crate::ipaddr::lemma_loopback_is_valid();
        }
        let mut router = Router::new(None);
        let server = match Server::new(router.id.as_str(), "127.0.0.1", 8080) {
            Ok(s) => s,
            Err(e) => {
                return Err(e);
            },
        };
        router.bind_server(&server);
        Ok(ServerInfo { server, router })
    }
}

// ---------------------------------------------------------------------------
// serialization
// ---------------------------------------------------------------------------
/// The root's form in the document; fields follow the declared order.
#[verifier::opaque]
pub open spec fn ser_server_info(v: ServerInfoV) -> Seq<char> {
    seq!['{'] + (ser_string(key_server()) + (seq![':'] + (ser_server(v.server) + (seq![','] + (
    ser_string(key_router()) + (seq![':'] + (ser_router(v.router) + seq!['}'])))))))
}

/// Appends the root in document form.
#[verifier::rlimit(100)]
pub fn emit_server_info(out: &mut Vec<char>, v: &ServerInfo)
    ensures
        final(out)@ == old(out)@ + ser_server_info(v@),
{
    proof {
        reveal(ser_server_info);
        reveal_strlit("server");
        reveal_strlit("router");
        assert("server"@ =~= key_server());
        assert("router"@ =~= key_router());
    }
    out.push('{');
    crate::json::emit_json_string(out, "server");
    out.push(':');
    crate::http::server::emit_server(out, &v.server);
    out.push(',');
    crate::json::emit_json_string(out, "router");
    out.push(':');
    crate::http::router::emit_router(out, &v.router);
    out.push('}');
    proof {
        assert(final(out)@ =~= old(out)@ + ser_server_info(v@));
    }
}

// ---------------------------------------------------------------------------
// parsing
// ---------------------------------------------------------------------------
/// Field values collected so far while reading the root object.
pub struct InfoSlots {
    pub server: Option<ServerV>,
    pub router: Option<RouterV>,
}

pub open spec fn info_slots_empty() -> InfoSlots {
    InfoSlots { server: None, router: None }
}

pub open spec fn finish_info(sl: InfoSlots, j: int) -> Option<(ServerInfoV, int)> {
    if sl.server is Some && sl.router is Some {
        Some(
            (ServerInfoV { server: sl.server->Some_0, router: sl.router->Some_0 }, j),
        )
    } else {
        None
    }
}

/// One `"key": value` pair of the root object, starting at the key's
/// opening quote; a repeated or unknown key is rejected.
pub open spec fn parse_info_one(s: Seq<char>, i: int, sl: InfoSlots) -> Option<(InfoSlots, int)> {
    match parse_jstring(s, i) {
        Option::None => None,
        Option::Some((k, j)) => {
            let j2 = skip_ws(s, j);
            if !(j2 < s.len() && s[j2] == ':') {
                None
            } else {
                let j3 = skip_ws(s, j2 + 1);
                if k == key_server() {
                    if sl.server is Some {
                        None
                    } else {
                        match parse_server(s, j3) {
                            Option::None => None,
                            Option::Some((v, j4)) => Some((InfoSlots { server: Some(v), ..sl }, j4)),
                        }
                    }
                } else if k == key_router() {
                    if sl.router is Some {
                        None
                    } else {
                        match parse_router(s, j3) {
                            Option::None => None,
                            Option::Some((v, j4)) => Some((InfoSlots { router: Some(v), ..sl }, j4)),
                        }
                    }
                } else {
                    None
                }
            }
        },
    }
}

/// The fields of the root object, in any order, each at most once.
pub open spec fn parse_info_fields(s: Seq<char>, i: int, sl: InfoSlots, fuel: nat) -> Option<
    (ServerInfoV, int),
>
    decreases fuel,
{
    if fuel == 0 {
        None
    } else {
        match parse_info_one(s, i, sl) {
            Option::None => None,
            Option::Some((sl2, j)) => {
                let j2 = skip_ws(s, j);
                if j2 < s.len() && s[j2] == ',' {
                    parse_info_fields(s, skip_ws(s, j2 + 1), sl2, (fuel - 1) as nat)
                } else if j2 < s.len() && s[j2] == '}' {
                    finish_info(sl2, j2 + 1)
                } else {
                    None
                }
            },
        }
    }
}

/// The root object starting exactly at `i`.
pub open spec fn parse_server_info(s: Seq<char>, i: int) -> Option<(ServerInfoV, int)> {
    if 0 <= i && i < s.len() && s[i] == '{' {
        let j = skip_ws(s, i + 1);
        if j < s.len() && s[j] == '}' {
            finish_info(info_slots_empty(), j + 1)
        } else {
            parse_info_fields(s, j, info_slots_empty(), 3)
        }
    } else {
        None
    }
}

/// A whole document: the root object surrounded by nothing but
/// whitespace.
pub open spec fn parse_document(s: Seq<char>) -> Option<ServerInfoV> {
    let j = skip_ws(s, 0);
    match parse_server_info(s, j) {
        Option::None => None,
        Option::Some((v, j2)) => if j2 <= s.len() && skip_ws(s, j2) == s.len() {
            Some(v)
        } else {
            None
        },
    }
}

pub proof fn lemma_info_one_progress(s: Seq<char>, i: int, sl: InfoSlots)
    requires
        parse_info_one(s, i, sl) is Some,
    ensures
        i < parse_info_one(s, i, sl)->Some_0.1 <= s.len(),
{
    crate::json::lemma_jstring_progress(s, i);
    let (k, j) = parse_jstring(s, i)->Some_0;
    crate::json::lemma_skip_ws_bounds(s, j);
    let j2 = skip_ws(s, j);
    crate::json::lemma_skip_ws_bounds(s, j2 + 1);
    let j3 = skip_ws(s, j2 + 1);
    if parse_server(s, j3) is Some {
        crate::http::server::lemma_server_progress(s, j3);
    }
    if parse_router(s, j3) is Some {
        crate::http::router::lemma_router_progress(s, j3);
    }
}

pub proof fn lemma_info_fields_progress(s: Seq<char>, i: int, sl: InfoSlots, fuel: nat)
    requires
        parse_info_fields(s, i, sl, fuel) is Some,
    ensures
        i < parse_info_fields(s, i, sl, fuel)->Some_0.1 <= s.len(),
    decreases fuel,
{
    let (sl2, j) = parse_info_one(s, i, sl)->Some_0;
    lemma_info_one_progress(s, i, sl);
    crate::json::lemma_skip_ws_bounds(s, j);
    let j2 = skip_ws(s, j);
    if j2 < s.len() && s[j2] == ',' {
        crate::json::lemma_skip_ws_bounds(s, j2 + 1);
        lemma_info_fields_progress(s, skip_ws(s, j2 + 1), sl2, (fuel - 1) as nat);
    }
}

/// A parsed root is well formed.
pub proof fn lemma_parse_server_info_wf(s: Seq<char>, i: int)
    requires
        parse_server_info(s, i) is Some,
    ensures
        parse_server_info(s, i)->Some_0.0.wf(),
{
    let j = skip_ws(s, i + 1);
    if j < s.len() && s[j] == '}' {
    } else {
        lemma_info_wf_fields(s, j, info_slots_empty(), 3);
    }
}

proof fn lemma_info_wf_fields(s: Seq<char>, i: int, sl: InfoSlots, fuel: nat)
    requires
        sl.server matches Some(v) ==> v.wf(),
        sl.router matches Some(v) ==> v.wf(),
    ensures
        parse_info_fields(s, i, sl, fuel) is Some ==> parse_info_fields(
            s,
            i,
            sl,
            fuel,
        )->Some_0.0.wf(),
    decreases fuel,
{
    if fuel > 0 {
        match parse_info_one(s, i, sl) {
            Option::None => {},
            Option::Some((sl2, j)) => {
                lemma_info_one_wf(s, i, sl);
                let j2 = skip_ws(s, j);
                if j2 < s.len() && s[j2] == ',' {
                    lemma_info_wf_fields(s, skip_ws(s, j2 + 1), sl2, (fuel - 1) as nat);
                }
            },
        }
    }
}

proof fn lemma_info_one_wf(s: Seq<char>, i: int, sl: InfoSlots)
    requires
        parse_info_one(s, i, sl) is Some,
        sl.server matches Some(v) ==> v.wf(),
        sl.router matches Some(v) ==> v.wf(),
    ensures
        parse_info_one(s, i, sl)->Some_0.0.server matches Some(v) ==> v.wf(),
        parse_info_one(s, i, sl)->Some_0.0.router matches Some(v) ==> v.wf(),
{
    let (k, j) = parse_jstring(s, i)->Some_0;
    let j2 = skip_ws(s, j);
    let j3 = skip_ws(s, j2 + 1);
    if k == key_server() && sl.server is None && parse_server(s, j3) is Some {
        crate::http::server::lemma_parse_server_wf(s, j3);
    }
    if k == key_router() && sl.router is None && parse_router(s, j3) is Some {
        crate::http::router::lemma_parse_router_wf(s, j3);
    }
}

// ---------------------------------------------------------------------------
// round trip
// ---------------------------------------------------------------------------
/// The root parser inverts the root serializer on well-formed values.
#[verifier::rlimit(100)]
pub proof fn lemma_parse_ser_server_info(s: Seq<char>, i: int, v: ServerInfoV)
    requires
        v.wf(),
        0 <= i,
        i + ser_server_info(v).len() <= s.len(),
        s.subrange(i, i + ser_server_info(v).len()) == ser_server_info(v),
    ensures
        parse_server_info(s, i) == Some((v, i + ser_server_info(v).len())),
{
    reveal(ser_server_info);
    let ks = ser_string(key_server());
    let sv = ser_server(v.server);
    let kr = ser_string(key_router());
    let rt = ser_router(v.router);
    let r1 = ks + (seq![':'] + (sv + (seq![','] + (kr + (seq![':'] + (rt + seq!['}']))))));
    crate::json::lemma_concat_subrange(s, i, seq!['{'], r1);
    assert(s[i] == s.subrange(i, i + 1)[0]);
    let p1 = i + 1;
    let r2 = seq![':'] + (sv + (seq![','] + (kr + (seq![':'] + (rt + seq!['}'])))));
    crate::json::lemma_concat_subrange(s, p1, ks, r2);
    crate::json::lemma_parse_ser_string(s, p1, key_server());
    assert(s[p1] == s.subrange(p1, p1 + ks.len())[0]);
    let c1 = p1 + ks.len();
    let r3 = sv + (seq![','] + (kr + (seq![':'] + (rt + seq!['}']))));
    crate::json::lemma_concat_subrange(s, c1, seq![':'], r3);
    assert(s[c1] == s.subrange(c1, c1 + 1)[0]);
    let v1 = c1 + 1;
    let r4 = seq![','] + (kr + (seq![':'] + (rt + seq!['}'])));
    crate::json::lemma_concat_subrange(s, v1, sv, r4);
    crate::http::server::lemma_ser_server_first(v.server);
    crate::http::server::lemma_parse_ser_server(s, v1, v.server);
    assert(s[v1] == s.subrange(v1, v1 + sv.len())[0]);
    assert(s[v1] == '{');
    let q1 = v1 + sv.len();
    let r5 = kr + (seq![':'] + (rt + seq!['}']));
    crate::json::lemma_concat_subrange(s, q1, seq![','], r5);
    assert(s[q1] == s.subrange(q1, q1 + 1)[0]);
    let p2 = q1 + 1;
    let r6 = seq![':'] + (rt + seq!['}']);
    crate::json::lemma_concat_subrange(s, p2, kr, r6);
    crate::json::lemma_parse_ser_string(s, p2, key_router());
    assert(s[p2] == s.subrange(p2, p2 + kr.len())[0]);
    let c2 = p2 + kr.len();
    let r7 = rt + seq!['}'];
    crate::json::lemma_concat_subrange(s, c2, seq![':'], r7);
    assert(s[c2] == s.subrange(c2, c2 + 1)[0]);
    let v2 = c2 + 1;
    crate::json::lemma_concat_subrange(s, v2, rt, seq!['}']);
    crate::http::router::lemma_ser_router_first(v.router);
    crate::http::router::lemma_parse_ser_router(s, v2, v.router);
    assert(s[v2] == s.subrange(v2, v2 + rt.len())[0]);
    assert(s[v2] == '{');
    let q2 = v2 + rt.len();
    assert(s[q2] == s.subrange(q2, q2 + 1)[0]);
    assert(s[q2] == '}');
    // walk the field loop
    assert(key_server().len() == 6);
    assert(key_router().len() == 6);
    assert(key_server()[0] == 's');
    assert(key_router()[0] == 'r');
    assert(key_server() != key_router());
    let sl0 = info_slots_empty();
    let sl1 = InfoSlots { server: Some(v.server), router: None };
    let sl2 = InfoSlots { server: Some(v.server), router: Some(v.router) };
    assert(s[p1] == '"');
    assert(skip_ws(s, p1) == p1);
    assert(skip_ws(s, c1) == c1);
    assert(skip_ws(s, v1) == v1);
    assert(parse_info_one(s, p1, sl0) == Some((sl1, q1)));
    assert(skip_ws(s, q1) == q1);
    assert(s[p2] == '"');
    assert(skip_ws(s, p2) == p2);
    assert(skip_ws(s, c2) == c2);
    assert(skip_ws(s, v2) == v2);
    assert(parse_info_one(s, p2, sl1) == Some((sl2, q2)));
    assert(skip_ws(s, q2) == q2);
    assert(parse_info_fields(s, p2, sl1, 2) == finish_info(sl2, q2 + 1));
    assert(finish_info(sl2, q2 + 1) == Some((v, q2 + 1)));
    assert(parse_info_fields(s, p1, sl0, 3) == parse_info_fields(s, p2, sl1, 2));
    assert(q2 + 1 == i + ser_server_info(v).len());
    assert(s[i] == '{');
    assert(skip_ws(s, i + 1) == p1);
    assert(parse_server_info(s, i) == parse_info_fields(s, p1, sl0, 3));
}

/// Loading a saved configuration yields the configuration that was
/// saved: the document parser inverts the document serializer on every
/// well-formed value.
pub proof fn lemma_load_save_round_trip(v: ServerInfoV)
    requires
        v.wf(),
    ensures
        parse_document(ser_server_info(v)) == Some(v),
{
    let s = ser_server_info(v);
    assert(s.subrange(0, s.len() as int) =~= s);
    assert(s.len() > 0 && s[0] == '{') by {
        reveal(ser_server_info);
    }
    lemma_parse_ser_server_info(s, 0, v);
    assert(skip_ws(s, 0) == 0);
    assert(skip_ws(s, s.len() as int) == s.len());
}

// ---------------------------------------------------------------------------
// executable load and save
// ---------------------------------------------------------------------------
pub open spec fn slot_view_server(o: Option<Server>) -> Option<ServerV> {
    match o {
        Option::Some(x) => Some(x@),
        Option::None => None,
    }
}

pub open spec fn slot_view_router(o: Option<Router>) -> Option<RouterV> {
    match o {
        Option::Some(x) => Some(x@),
        Option::None => None,
    }
}

/// Reads the root object starting exactly at `i`; on failure reports the
/// position where parsing stopped.
fn parse_server_info_exec(s: &Vec<char>, i: usize) -> (r: Result<(ServerInfo, usize), usize>)
    requires
        i <= s@.len(),
    ensures
        r matches Ok(p) ==> parse_server_info(s@, i as int) == Some((p.0@, p.1 as int)) && i < p.1
            <= s@.len(),
        r is Err ==> parse_server_info(s@, i as int) is None,
{
    if i == s.len() || s[i] != '{' {
        return Err(i);
    }
    let mut k: usize = crate::json::ws_to(s, i + 1);
    if k < s.len() && s[k] == '}' {
        return Err(k);
    }
    let mut server: Option<Server> = None;
    let mut router: Option<Router> = None;
    let mut fuel: u8 = 3;
    loop
        invariant
            i < k <= s@.len(),
            parse_server_info(s@, i as int) == parse_info_fields(
                s@,
                k as int,
                (InfoSlots { server: slot_view_server(server), router: slot_view_router(router) }),
                fuel as nat,
            ),
        decreases fuel,
    {
        proof {
            reveal_strlit("server");
            reveal_strlit("router");
            assert("server"@ =~= key_server());
            assert("router"@ =~= key_router());
        }
        if fuel == 0 {
            return Err(k);
        }
        let (kt, j) = match crate::json::parse_string_exec(s, k) {
            Ok(p) => p,
            Err(e) => {
                return Err(e);
            },
        };
        let j2 = crate::json::ws_to(s, j);
        if !(j2 < s.len() && s[j2] == ':') {
            return Err(j2);
        }
        let j3 = crate::json::ws_to(s, j2 + 1);
        let jnext: usize;
        if crate::text::chars_eq_str(&kt, "server") {
            if server.is_some() {
                return Err(j3);
            }
            let (v, j4) = match parse_server_exec(s, j3) {
                Ok(p) => p,
                Err(e) => {
                    return Err(e);
                },
            };
            server = Some(v);
            jnext = j4;
        } else if crate::text::chars_eq_str(&kt, "router") {
            if router.is_some() {
                return Err(j3);
            }
            let (v, j4) = match parse_router_exec(s, j3) {
                Ok(p) => p,
                Err(e) => {
                    return Err(e);
                },
            };
            router = Some(v);
            jnext = j4;
        } else {
            return Err(k);
        }
        let j5 = crate::json::ws_to(s, jnext);
        if j5 < s.len() && s[j5] == ',' {
            k = crate::json::ws_to(s, j5 + 1);
            fuel = fuel - 1;
        } else if j5 < s.len() && s[j5] == '}' {
            match (server, router) {
                (Some(a), Some(b)) => {
                    return Ok((ServerInfo { server: a, router: b }, j5 + 1));
                },
                _ => {
                    return Err(j5);
                },
            }
        } else {
            return Err(j5);
        }
    }
}

impl ServerInfo {
    /// Reads a whole configuration document; a malformed or
    /// schema-violating document is rejected with the position where
    /// reading stopped.
    pub fn from_json_str(data: &str) -> (r: Result<ServerInfo, ConfigError>)
        ensures
            r matches Ok(v) ==> parse_document(data@) == Some(v@) && v@.wf(),
            r is Err ==> parse_document(data@) is None,
    {
        let s = crate::text::str_to_chars(data);
        let j = crate::json::ws_to(&s, 0);
        match parse_server_info_exec(&s, j) {
            Err(e) => Err(crate::errors::config_error_at(&s, e, "malformed configuration document")),
            Ok((v, j2)) => {
                let j3 = crate::json::ws_to(&s, j2);
                if j3 != s.len() {
                    return Err(
                        crate::errors::config_error_at(
                            &s,
                            j3,
                            "unexpected content after the configuration document",
                        ),
                    );
                }
                proof {
                    lemma_parse_server_info_wf(s@, j as int);
                }
                Ok(v)
            },
        }
    }

    /// Writes the configuration as one document.
    pub fn to_json_string(&self) -> (r: String)
        ensures
            r@ == ser_server_info(self@),
    {
        let mut out: Vec<char> = Vec::new();
        emit_server_info(&mut out, self);
        crate::text::chars_to_string(&out)
    }
}

} // verus!
