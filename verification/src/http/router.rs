//! An ordered collection of routes bound to one server, with its
//! document codec.

use vstd::prelude::*;

use crate::http::route::parse_routes;
use crate::http::route::parse_routes_exec;
use crate::http::route::ser_routes;
use crate::http::route::Route;
use crate::http::route::RouteV;
use crate::http::server::Server;
use crate::json::parse_jstring;
use crate::json::parse_opt_str;
use crate::json::ser_opt_str;
use crate::json::ser_str_field;
use crate::json::ser_string;
use crate::json::skip_ws;
use crate::keys::key_id;
use crate::keys::key_routes;
use crate::keys::key_server_id;

verus! {

#[derive(Debug, PartialEq)]
pub struct Router {
    pub id: String,
    pub server_id: Option<String>,
    pub routes: Vec<Route>,
}

/// The mathematical shape of a `Router`.
pub struct RouterV {
    pub id: Seq<char>,
    pub server_id: Option<Seq<char>>,
    pub routes: Seq<RouteV>,
}

impl RouterV {
    /// Every route keeps its selection invariant.
    pub open spec fn wf(self) -> bool {
        forall|k: int| 0 <= k < self.routes.len() ==> (#[trigger] self.routes[k]).wf()
    }
}

impl View for Router {
    type V = RouterV;

    open spec fn view(&self) -> RouterV {
        RouterV {
            id: self.id@,
            server_id: match self.server_id {
                Option::Some(ref v) => Some(v@),
                Option::None => None,
            },
            routes: self.routes.deep_view(),
        }
    }
}

impl DeepView for Router {
    type V = RouterV;

    open spec fn deep_view(&self) -> RouterV {
        self@
    }
}

impl Router {
    /// A fresh router, optionally recording its paired server.
    pub fn new(server_id: Option<String>) -> (r: Self)
        ensures
            r@.server_id == (match server_id {
                Option::Some(v) => Some(v@),
                Option::None => None::<Seq<char>>,
            }),
            r@.routes.len() == 0,
            r@.wf(),
    {
        let r = Router { id: crate::ids::fresh_id(), server_id, routes: Vec::new() };
        proof {
            assert(r@.routes =~= Seq::<RouteV>::empty());
        }
        r
    }

    /// Records the paired server's identifier with this router, nothing
    /// more.
    pub fn bind_server(&mut self, server: &Server)
        ensures
            final(self)@ == (RouterV { server_id: Some(server@.id), ..old(self)@ }),
    {
        proof {
            crate::http::server::lemma_server_fields(server);
        }
        self.server_id = Some(server.id.clone());
    }

    /// Adds a route to this router.
    pub fn add_route(&mut self, route: Route)
        ensures
            final(self)@ == (RouterV { routes: old(self)@.routes.push(route@), ..old(self)@ }),
    {
        self.routes.push(route);
        proof {
            assert(final(self)@.routes =~= old(self)@.routes.push(route@));
        }
    }
}

// ---------------------------------------------------------------------------
// serialization
// ---------------------------------------------------------------------------
/// A router's form in the document; fields follow the declared order.
#[verifier::opaque]
pub open spec fn ser_router(r: RouterV) -> Seq<char> {
    seq!['{'] + (ser_str_field(key_id(), r.id) + (seq![','] + (ser_string(key_server_id()) + (
    seq![':'] + (ser_opt_str(r.server_id) + (seq![','] + (ser_string(key_routes()) + (seq![':'] + (
    ser_routes(r.routes) + seq!['}'])))))))))
}

/// Appends a router in document form.
#[verifier::rlimit(100)]
pub fn emit_router(out: &mut Vec<char>, r: &Router)
    ensures
        final(out)@ == old(out)@ + ser_router(r@),
{
    proof {
        reveal(ser_router);
        reveal_strlit("id");
        reveal_strlit("serverId");
        reveal_strlit("routes");
        assert("id"@ =~= key_id());
        assert("serverId"@ =~= key_server_id());
        assert("routes"@ =~= key_routes());
    }
    out.push('{');
    crate::json::emit_str_field(out, "id", r.id.as_str());
    out.push(',');
    crate::json::emit_json_string(out, "serverId");
    out.push(':');
    crate::json::emit_opt_str(out, &r.server_id);
    out.push(',');
    crate::json::emit_json_string(out, "routes");
    out.push(':');
    crate::http::route::emit_routes(out, &r.routes);
    out.push('}');
    proof {
        assert(final(out)@ =~= old(out)@ + ser_router(r@));
    }
}

// ---------------------------------------------------------------------------
// parsing
// ---------------------------------------------------------------------------
/// Field values collected so far while reading a router object.
pub struct RouterSlots {
    pub id: Option<Seq<char>>,
    pub server_id: Option<Option<Seq<char>>>,
    pub routes: Option<Seq<RouteV>>,
}

pub open spec fn router_slots_empty() -> RouterSlots {
    RouterSlots { id: None, server_id: None, routes: None }
}

/// A complete router from filled slots; the paired-server reference may
/// be absent.
pub open spec fn finish_router(sl: RouterSlots, j: int) -> Option<(RouterV, int)> {
    if sl.id is Some && sl.routes is Some {
        let sid = match sl.server_id {
            Option::Some(x) => x,
            Option::None => None,
        };
        Some(
            (RouterV { id: sl.id->Some_0, server_id: sid, routes: sl.routes->Some_0 }, j),
        )
    } else {
        None
    }
}

/// One `"key": value` pair of a router object, starting at the key's
/// opening quote; a repeated or unknown key is rejected.
pub open spec fn parse_router_one(s: Seq<char>, i: int, sl: RouterSlots) -> Option<
    (RouterSlots, int),
> {
    match parse_jstring(s, i) {
        Option::None => None,
        Option::Some((k, j)) => {
            let j2 = skip_ws(s, j);
            if !(j2 < s.len() && s[j2] == ':') {
                None
            } else {
                let j3 = skip_ws(s, j2 + 1);
                if k == key_id() {
                    if sl.id is Some {
                        None
                    } else {
                        match parse_jstring(s, j3) {
                            Option::None => None,
                            Option::Some((v, j4)) => Some((RouterSlots { id: Some(v), ..sl }, j4)),
                        }
                    }
                } else if k == key_server_id() {
                    if sl.server_id is Some {
                        None
                    } else {
                        match parse_opt_str(s, j3) {
                            Option::None => None,
                            Option::Some((v, j4)) => Some(
                                (RouterSlots { server_id: Some(v), ..sl }, j4),
                            ),
                        }
                    }
                } else if k == key_routes() {
                    if sl.routes is Some {
                        None
                    } else {
                        match parse_routes(s, j3) {
                            Option::None => None,
                            Option::Some((rs, j4)) => Some(
                                (RouterSlots { routes: Some(rs), ..sl }, j4),
                            ),
                        }
                    }
                } else {
                    None
                }
            }
        },
    }
}

/// The fields of a router object, in any order, each at most once.
pub open spec fn parse_router_fields(s: Seq<char>, i: int, sl: RouterSlots, fuel: nat) -> Option<
    (RouterV, int),
>
    decreases fuel,
{
    if fuel == 0 {
        None
    } else {
        match parse_router_one(s, i, sl) {
            Option::None => None,
            Option::Some((sl2, j)) => {
                let j2 = skip_ws(s, j);
                if j2 < s.len() && s[j2] == ',' {
                    parse_router_fields(s, skip_ws(s, j2 + 1), sl2, (fuel - 1) as nat)
                } else if j2 < s.len() && s[j2] == '}' {
                    finish_router(sl2, j2 + 1)
                } else {
                    None
                }
            },
        }
    }
}

/// A router object starting exactly at `i`.
pub open spec fn parse_router(s: Seq<char>, i: int) -> Option<(RouterV, int)> {
    if 0 <= i && i < s.len() && s[i] == '{' {
        let j = skip_ws(s, i + 1);
        if j < s.len() && s[j] == '}' {
            finish_router(router_slots_empty(), j + 1)
        } else {
            parse_router_fields(s, j, router_slots_empty(), 4)
        }
    } else {
        None
    }
}

pub proof fn lemma_router_one_progress(s: Seq<char>, i: int, sl: RouterSlots)
    requires
        parse_router_one(s, i, sl) is Some,
    ensures
        i < parse_router_one(s, i, sl)->Some_0.1 <= s.len(),
{
    crate::json::lemma_jstring_progress(s, i);
    let (k, j) = parse_jstring(s, i)->Some_0;
    crate::json::lemma_skip_ws_bounds(s, j);
    let j2 = skip_ws(s, j);
    crate::json::lemma_skip_ws_bounds(s, j2 + 1);
    let j3 = skip_ws(s, j2 + 1);
    if parse_jstring(s, j3) is Some {
        crate::json::lemma_jstring_progress(s, j3);
    }
    if parse_opt_str(s, j3) is Some {
        crate::json::lemma_opt_str_progress(s, j3);
    }
    if parse_routes(s, j3) is Some {
        crate::http::route::lemma_routes_progress(s, j3);
    }
}

pub proof fn lemma_router_fields_progress(s: Seq<char>, i: int, sl: RouterSlots, fuel: nat)
    requires
        parse_router_fields(s, i, sl, fuel) is Some,
    ensures
        i < parse_router_fields(s, i, sl, fuel)->Some_0.1 <= s.len(),
    decreases fuel,
{
    let (sl2, j) = parse_router_one(s, i, sl)->Some_0;
    lemma_router_one_progress(s, i, sl);
    crate::json::lemma_skip_ws_bounds(s, j);
    let j2 = skip_ws(s, j);
    if j2 < s.len() && s[j2] == ',' {
        crate::json::lemma_skip_ws_bounds(s, j2 + 1);
        lemma_router_fields_progress(s, skip_ws(s, j2 + 1), sl2, (fuel - 1) as nat);
    }
}

pub proof fn lemma_router_progress(s: Seq<char>, i: int)
    requires
        parse_router(s, i) is Some,
    ensures
        i < parse_router(s, i)->Some_0.1 <= s.len(),
{
    crate::json::lemma_skip_ws_bounds(s, i + 1);
    let j = skip_ws(s, i + 1);
    if j < s.len() && s[j] == '}' {
    } else {
        lemma_router_fields_progress(s, j, router_slots_empty(), 4);
    }
}

/// A parsed router is well formed: each of its routes is.
pub proof fn lemma_parse_router_wf(s: Seq<char>, i: int)
    requires
        parse_router(s, i) is Some,
    ensures
        parse_router(s, i)->Some_0.0.wf(),
{
    let j = skip_ws(s, i + 1);
    if j < s.len() && s[j] == '}' {
    } else {
        lemma_router_wf_fields(s, j, router_slots_empty(), 4);
    }
}

proof fn lemma_router_wf_fields(s: Seq<char>, i: int, sl: RouterSlots, fuel: nat)
    requires
        sl.routes matches Some(rs) ==> forall|k: int| 0 <= k < rs.len() ==> (#[trigger] rs[k]).wf(),
    ensures
        parse_router_fields(s, i, sl, fuel) is Some ==> parse_router_fields(
            s,
            i,
            sl,
            fuel,
        )->Some_0.0.wf(),
    decreases fuel,
{
    if fuel > 0 {
        match parse_router_one(s, i, sl) {
            Option::None => {},
            Option::Some((sl2, j)) => {
                proof_router_one_routes_wf(s, i, sl);
                let j2 = skip_ws(s, j);
                if j2 < s.len() && s[j2] == ',' {
                    lemma_router_wf_fields(s, skip_ws(s, j2 + 1), sl2, (fuel - 1) as nat);
                }
            },
        }
    }
}

proof fn proof_router_one_routes_wf(s: Seq<char>, i: int, sl: RouterSlots)
    requires
        parse_router_one(s, i, sl) is Some,
        sl.routes matches Some(rs) ==> forall|k: int| 0 <= k < rs.len() ==> (#[trigger] rs[k]).wf(),
    ensures
        parse_router_one(s, i, sl)->Some_0.0.routes matches Some(rs2) ==> forall|k: int|
            0 <= k < rs2.len() ==> (#[trigger] rs2[k]).wf(),
{
    let (k, j) = parse_jstring(s, i)->Some_0;
    let j2 = skip_ws(s, j);
    let j3 = skip_ws(s, j2 + 1);
    if k == key_routes() && sl.routes is None && parse_routes(s, j3) is Some {
        crate::http::route::lemma_parse_routes_wf(s, j3);
    }
}

} // verus!

verus! {

// ---------------------------------------------------------------------------
// round trip
// ---------------------------------------------------------------------------
pub open spec fn rr_p1(i: int) -> int {
    i + 1
}

pub open spec fn rr_q1(i: int, r: RouterV) -> int {
    rr_p1(i) + ser_str_field(key_id(), r.id).len()
}

pub open spec fn rr_p2(i: int, r: RouterV) -> int {
    rr_q1(i, r) + 1
}

pub open spec fn rr_c2(i: int, r: RouterV) -> int {
    rr_p2(i, r) + ser_string(key_server_id()).len()
}

pub open spec fn rr_v2(i: int, r: RouterV) -> int {
    rr_c2(i, r) + 1
}

pub open spec fn rr_q2(i: int, r: RouterV) -> int {
    rr_v2(i, r) + ser_opt_str(r.server_id).len()
}

pub open spec fn rr_p3(i: int, r: RouterV) -> int {
    rr_q2(i, r) + 1
}

pub open spec fn rr_c3(i: int, r: RouterV) -> int {
    rr_p3(i, r) + ser_string(key_routes()).len()
}

pub open spec fn rr_v3(i: int, r: RouterV) -> int {
    rr_c3(i, r) + 1
}

pub open spec fn rr_q3(i: int, r: RouterV) -> int {
    rr_v3(i, r) + ser_routes(r.routes).len()
}

/// What each token parser returns at each piece of a serialized router.
pub open spec fn router_pieces_ok(s: Seq<char>, i: int, r: RouterV) -> bool {
    &&& 0 <= i
    &&& rr_q3(i, r) + 1 <= s.len()
    &&& s[i] == '{'
    &&& s[rr_p1(i)] == '"'
    &&& parse_jstring(s, rr_p1(i)) == Some((key_id(), rr_p1(i) + ser_string(key_id()).len()))
    &&& s[rr_p1(i) + ser_string(key_id()).len()] == ':'
    &&& parse_jstring(s, rr_p1(i) + ser_string(key_id()).len() + 1) == Some((r.id, rr_q1(i, r)))
    &&& s[rr_p1(i) + ser_string(key_id()).len() + 1] == '"'
    &&& s[rr_q1(i, r)] == ','
    &&& s[rr_p2(i, r)] == '"'
    &&& parse_jstring(s, rr_p2(i, r)) == Some((key_server_id(), rr_c2(i, r)))
    &&& s[rr_c2(i, r)] == ':'
    &&& !crate::text::is_ws(s[rr_v2(i, r)])
    &&& parse_opt_str(s, rr_v2(i, r)) == Some((r.server_id, rr_q2(i, r)))
    &&& s[rr_q2(i, r)] == ','
    &&& s[rr_p3(i, r)] == '"'
    &&& parse_jstring(s, rr_p3(i, r)) == Some((key_routes(), rr_c3(i, r)))
    &&& s[rr_c3(i, r)] == ':'
    &&& s[rr_v3(i, r)] == '['
    &&& parse_routes(s, rr_v3(i, r)) == Some((r.routes, rr_q3(i, r)))
    &&& s[rr_q3(i, r)] == '}'
}

/// Locates every piece of a serialized router and runs the token parsers
/// on them.
#[verifier::rlimit(100)]
pub proof fn lemma_router_pieces(s: Seq<char>, i: int, r: RouterV)
    requires
        r.wf(),
        0 <= i,
        i + ser_router(r).len() <= s.len(),
        s.subrange(i, i + ser_router(r).len()) == ser_router(r),
    ensures
        router_pieces_ok(s, i, r),
        rr_q3(i, r) + 1 == i + ser_router(r).len(),
{
    reveal(ser_router);
    let f1 = ser_str_field(key_id(), r.id);
    let k2 = ser_string(key_server_id());
    let a2 = ser_opt_str(r.server_id);
    let k3 = ser_string(key_routes());
    let t3 = ser_routes(r.routes);
    let r1 = f1 + (seq![','] + (k2 + (seq![':'] + (a2 + (seq![','] + (k3 + (seq![':'] + (t3
        + seq!['}']))))))));
    crate::json::lemma_concat_subrange(s, i, seq!['{'], r1);
    assert(s[i] == s.subrange(i, i + 1)[0]);
    let p1 = i + 1;
    let r2 = seq![','] + (k2 + (seq![':'] + (a2 + (seq![','] + (k3 + (seq![':'] + (t3
        + seq!['}'])))))));
    crate::json::lemma_concat_subrange(s, p1, f1, r2);
    crate::json::lemma_step_str_field(s, p1, key_id(), r.id);
    let q1 = p1 + f1.len();
    let r3 = k2 + (seq![':'] + (a2 + (seq![','] + (k3 + (seq![':'] + (t3 + seq!['}']))))));
    crate::json::lemma_concat_subrange(s, q1, seq![','], r3);
    assert(s[q1] == s.subrange(q1, q1 + 1)[0]);
    let p2 = q1 + 1;
    let r4 = seq![':'] + (a2 + (seq![','] + (k3 + (seq![':'] + (t3 + seq!['}'])))));
    crate::json::lemma_concat_subrange(s, p2, k2, r4);
    crate::json::lemma_parse_ser_string(s, p2, key_server_id());
    assert(s[p2] == s.subrange(p2, p2 + k2.len())[0]);
    let c2 = p2 + k2.len();
    let r5 = a2 + (seq![','] + (k3 + (seq![':'] + (t3 + seq!['}']))));
    crate::json::lemma_concat_subrange(s, c2, seq![':'], r5);
    assert(s[c2] == s.subrange(c2, c2 + 1)[0]);
    let v2 = c2 + 1;
    let r6 = seq![','] + (k3 + (seq![':'] + (t3 + seq!['}'])));
    crate::json::lemma_concat_subrange(s, v2, a2, r6);
    crate::json::lemma_parse_ser_opt_str(s, v2, r.server_id);
    assert(s[v2] == s.subrange(v2, v2 + a2.len())[0]);
    assert(!crate::text::is_ws(s[v2])) by {
        match r.server_id {
            Option::Some(v) => {
                assert(a2[0] == '"');
            },
            Option::None => {
                assert(a2[0] == 'n');
            },
        }
    }
    let q2 = v2 + a2.len();
    let r7 = k3 + (seq![':'] + (t3 + seq!['}']));
    crate::json::lemma_concat_subrange(s, q2, seq![','], r7);
    assert(s[q2] == s.subrange(q2, q2 + 1)[0]);
    let p3 = q2 + 1;
    let r8 = seq![':'] + (t3 + seq!['}']);
    crate::json::lemma_concat_subrange(s, p3, k3, r8);
    crate::json::lemma_parse_ser_string(s, p3, key_routes());
    assert(s[p3] == s.subrange(p3, p3 + k3.len())[0]);
    let c3 = p3 + k3.len();
    let r9 = t3 + seq!['}'];
    crate::json::lemma_concat_subrange(s, c3, seq![':'], r9);
    assert(s[c3] == s.subrange(c3, c3 + 1)[0]);
    let v3 = c3 + 1;
    crate::json::lemma_concat_subrange(s, v3, t3, seq!['}']);
    crate::http::route::lemma_parse_ser_routes(s, v3, r.routes);
    assert(s[v3] == s.subrange(v3, v3 + t3.len())[0]);
    let q3 = v3 + t3.len();
    assert(s[q3] == s.subrange(q3, q3 + 1)[0]);
}

/// The router parser inverts the router serializer on well-formed
/// routers.
#[verifier::rlimit(100)]
pub proof fn lemma_parse_ser_router(s: Seq<char>, i: int, r: RouterV)
    requires
        r.wf(),
        0 <= i,
        i + ser_router(r).len() <= s.len(),
        s.subrange(i, i + ser_router(r).len()) == ser_router(r),
    ensures
        parse_router(s, i) == Some((r, i + ser_router(r).len())),
{
    lemma_router_pieces(s, i, r);
    assert(key_id().len() == 2);
    assert(key_server_id().len() == 8);
    assert(key_routes().len() == 6);
    let p1 = rr_p1(i);
    let q1 = rr_q1(i, r);
    let p2 = rr_p2(i, r);
    let c2 = rr_c2(i, r);
    let v2 = rr_v2(i, r);
    let q2 = rr_q2(i, r);
    let p3 = rr_p3(i, r);
    let c3 = rr_c3(i, r);
    let v3 = rr_v3(i, r);
    let q3 = rr_q3(i, r);
    let sl0 = router_slots_empty();
    let sl1 = RouterSlots { id: Some(r.id), ..sl0 };
    let sl2 = RouterSlots { server_id: Some(r.server_id), ..sl1 };
    let sl3 = RouterSlots { routes: Some(r.routes), ..sl2 };
    assert(skip_ws(s, p1) == p1);
    assert(skip_ws(s, p1 + ser_string(key_id()).len()) == p1 + ser_string(key_id()).len());
    assert(skip_ws(s, p1 + ser_string(key_id()).len() + 1) == p1 + ser_string(key_id()).len() + 1);
    assert(parse_router_one(s, p1, sl0) == Some((sl1, q1)));
    assert(skip_ws(s, q1) == q1);
    assert(skip_ws(s, p2) == p2);
    assert(skip_ws(s, c2) == c2);
    assert(skip_ws(s, v2) == v2);
    assert(parse_router_one(s, p2, sl1) == Some((sl2, q2)));
    assert(skip_ws(s, q2) == q2);
    assert(skip_ws(s, p3) == p3);
    assert(skip_ws(s, c3) == c3);
    assert(skip_ws(s, v3) == v3);
    assert(parse_router_one(s, p3, sl2) == Some((sl3, q3)));
    assert(skip_ws(s, q3) == q3);
    assert(parse_router_fields(s, p3, sl2, 2) == finish_router(sl3, q3 + 1));
    assert(finish_router(sl3, q3 + 1) == Some((r, q3 + 1)));
    assert(parse_router_fields(s, p2, sl1, 3) == parse_router_fields(s, p3, sl2, 2));
    assert(parse_router_fields(s, p1, sl0, 4) == parse_router_fields(s, p2, sl1, 3));
    assert(q3 + 1 == i + ser_router(r).len());
    assert(s[i] == '{');
    assert(skip_ws(s, i + 1) == p1);
    assert(parse_router(s, i) == parse_router_fields(s, p1, sl0, 4));
}

// ---------------------------------------------------------------------------
// executable parser
// ---------------------------------------------------------------------------
pub open spec fn slot_view(o: Option<String>) -> Option<Seq<char>> {
    match o {
        Option::Some(x) => Some(x@),
        Option::None => None,
    }
}

pub open spec fn slot_view_opt(o: Option<Option<String>>) -> Option<Option<Seq<char>>> {
    match o {
        Option::Some(x) => Some(slot_view(x)),
        Option::None => None,
    }
}

pub open spec fn slot_view_routes(o: Option<Vec<Route>>) -> Option<Seq<RouteV>> {
    match o {
        Option::Some(x) => Some(x.deep_view()),
        Option::None => None,
    }
}

/// Reads a router object starting exactly at `i`; on failure reports the
/// position where parsing stopped.
pub fn parse_router_exec(s: &Vec<char>, i: usize) -> (r: Result<(Router, usize), usize>)
    requires
        i <= s@.len(),
    ensures
        r matches Ok(p) ==> parse_router(s@, i as int) == Some((p.0@, p.1 as int)) && i < p.1
            <= s@.len(),
        r is Err ==> parse_router(s@, i as int) is None,
{
    if i == s.len() || s[i] != '{' {
        return Err(i);
    }
    let mut k: usize = crate::json::ws_to(s, i + 1);
    if k < s.len() && s[k] == '}' {
        return Err(k);
    }
    let mut id: Option<String> = None;
    let mut server_id: Option<Option<String>> = None;
    let mut routes: Option<Vec<Route>> = None;
    let mut fuel: u8 = 4;
    loop
        invariant
            i < k <= s@.len(),
            parse_router(s@, i as int) == parse_router_fields(
                s@,
                k as int,
                (RouterSlots {
                    id: slot_view(id),
                    server_id: slot_view_opt(server_id),
                    routes: slot_view_routes(routes),
                }),
                fuel as nat,
            ),
        decreases fuel,
    {
        proof {
            reveal_strlit("id");
            reveal_strlit("serverId");
            reveal_strlit("routes");
            assert("id"@ =~= key_id());
            assert("serverId"@ =~= key_server_id());
            assert("routes"@ =~= key_routes());
        }
        if fuel == 0 {
            return Err(k);
        }
        let (kt, j) = match crate::json::parse_string_exec(s, k) {
            Ok(p) => p,
            Err(e) => {
                return Err(e);
            },
        };
        let j2 = crate::json::ws_to(s, j);
        if !(j2 < s.len() && s[j2] == ':') {
            return Err(j2);
        }
        let j3 = crate::json::ws_to(s, j2 + 1);
        let jnext: usize;
        if crate::text::chars_eq_str(&kt, "id") {
            if id.is_some() {
                return Err(j3);
            }
            let (v, j4) = match crate::json::parse_string_exec(s, j3) {
                Ok(p) => p,
                Err(e) => {
                    return Err(e);
                },
            };
            id = Some(crate::text::chars_to_string(&v));
            jnext = j4;
        } else if crate::text::chars_eq_str(&kt, "serverId") {
            if server_id.is_some() {
                return Err(j3);
            }
            let (v, j4) = match crate::json::parse_opt_str_exec(s, j3) {
                Ok(p) => p,
                Err(e) => {
                    return Err(e);
                },
            };
            let vs: Option<String> = match v {
                Some(c) => Some(crate::text::chars_to_string(&c)),
                None => None,
            };
            server_id = Some(vs);
            jnext = j4;
        } else if crate::text::chars_eq_str(&kt, "routes") {
            if routes.is_some() {
                return Err(j3);
            }
            let (v, j4) = match parse_routes_exec(s, j3) {
                Ok(p) => p,
                Err(e) => {
                    return Err(e);
                },
            };
            routes = Some(v);
            jnext = j4;
        } else {
            return Err(k);
        }
        let j5 = crate::json::ws_to(s, jnext);
        if j5 < s.len() && s[j5] == ',' {
            k = crate::json::ws_to(s, j5 + 1);
            fuel = fuel - 1;
        } else if j5 < s.len() && s[j5] == '}' {
            match (id, routes) {
                (Some(a), Some(b)) => {
                    let sid: Option<String> = match server_id {
                        Some(x) => x,
                        None => None,
                    };
                    let router = Router { id: a, server_id: sid, routes: b };
                    return Ok((router, j5 + 1));
                },
                _ => {
                    return Err(j5);
                },
            }
        } else {
            return Err(j5);
        }
    }
}

} // verus!

verus! {

/// A serialized router always begins with an opening brace.
pub proof fn lemma_ser_router_first(r: RouterV)
    ensures
        ser_router(r).len() > 0,
        ser_router(r)[0] == '{',
{
    reveal(ser_router);
}

} // verus!

verus! {

/// A whole document holding one router, surrounded by nothing but
/// whitespace.
pub open spec fn router_document(s: Seq<char>) -> Option<RouterV> {
    let j = skip_ws(s, 0);
    match parse_router(s, j) {
        Option::None => None,
        Option::Some((v, j2)) => if j2 <= s.len() && skip_ws(s, j2) == s.len() {
            Some(v)
        } else {
            None
        },
    }
}

impl Router {
    /// Reads one router from a document.
    pub fn from_json_str(data: &str) -> (r: Result<Router, crate::errors::ConfigError>)
        ensures
            r matches Ok(v) ==> router_document(data@) == Some(v@) && v@.wf(),
            r is Err ==> router_document(data@) is None,
    {
        let s = crate::text::str_to_chars(data);
        let j = crate::json::ws_to(&s, 0);
        match parse_router_exec(&s, j) {
            Err(e) => Err(crate::errors::config_error_at(&s, e, "malformed router document")),
            Ok((v, j2)) => {
                let j3 = crate::json::ws_to(&s, j2);
                if j3 != s.len() {
                    return Err(
                        crate::errors::config_error_at(
                            &s,
                            j3,
                            "unexpected content after the router document",
                        ),
                    );
                }
                proof {
                    lemma_parse_router_wf(s@, j as int);
                }
                Ok(v)
            },
        }
    }
}

} // verus!
