//! A path and method holding candidate responses, tracking which one is
//! active, with its document codec.

use vstd::prelude::*;

use crate::http::header::parse_headers;
use crate::http::header::parse_headers_exec;
use crate::http::header::ser_headers;
use crate::http::header::Header;
use crate::http::header::HeaderV;
use crate::http::method::method_of_tok;
use crate::http::method::method_tok;
use crate::http::method::Method;
use crate::http::response::parse_responses;
use crate::http::response::parse_responses_exec;
use crate::http::response::ser_responses;
use crate::http::response::Response;
use crate::http::response::ResponseV;
use crate::json::parse_jstring;
use crate::json::parse_opt_str;
use crate::json::ser_opt_str;
use crate::json::ser_str_field;
use crate::json::ser_string;
use crate::json::skip_ws;
use crate::keys::key_active_response;
use crate::keys::key_headers;
use crate::keys::key_id;
use crate::keys::key_method;
use crate::keys::key_path;
use crate::keys::key_responses;

verus! {

#[derive(Debug, PartialEq)]
pub struct Route {
    pub id: String,
    pub path: String,
    pub method: Method,
    pub headers: Vec<Header>,
    pub responses: Vec<Response>,
    pub(crate) active_response: Option<String>,
    pub(crate) active_response_index: Option<usize>,
}

/// The mathematical shape of a `Route`.
pub struct RouteV {
    pub id: Seq<char>,
    pub path: Seq<char>,
    pub method: Method,
    pub headers: Seq<HeaderV>,
    pub responses: Seq<ResponseV>,
    pub active_response: Option<Seq<char>>,
    pub active_index: Option<int>,
}

impl View for Route {
    type V = RouteV;

    closed spec fn view(&self) -> RouteV {
        RouteV {
            id: self.id@,
            path: self.path@,
            method: self.method,
            headers: self.headers.deep_view(),
            responses: self.responses.deep_view(),
            active_response: match self.active_response {
                Option::Some(ref v) => Some(v@),
                Option::None => None,
            },
            active_index: match self.active_response_index {
                Option::Some(i) => Some(i as int),
                Option::None => None,
            },
        }
    }
}

impl DeepView for Route {
    type V = RouteV;

    open spec fn deep_view(&self) -> RouteV {
        self@
    }
}

// ---------------------------------------------------------------------------
// active-response resolution
// ---------------------------------------------------------------------------
/// First position in `rs` holding a response with the given id, from `k` on.
pub open spec fn find_response(rs: Seq<ResponseV>, id: Seq<char>, k: int) -> Option<int>
    decreases rs.len() - k,
{
    if k < 0 || k >= rs.len() {
        None
    } else if rs[k].id == id {
        Some(k)
    } else {
        find_response(rs, id, k + 1)
    }
}

/// The selection a stored reference resolves to.
pub open spec fn resolved_index(r: RouteV) -> Option<int> {
    match r.active_response {
        Option::Some(id) => find_response(r.responses, id, 0),
        Option::None => None,
    }
}

impl RouteV {
    /// The stored index is exactly what the stored reference resolves to.
    pub open spec fn wf(self) -> bool {
        self.active_index == resolved_index(self)
    }
}

/// The response a route answers with: the explicitly selected one if the
/// stored reference resolves, the first declared one if nothing was ever
/// selected, and none otherwise.
pub open spec fn active_response_of(r: RouteV) -> Option<ResponseV> {
    match r.active_response {
        Option::Some(_) => match r.active_index {
            Option::Some(i) => if 0 <= i < r.responses.len() {
                Some(r.responses[i])
            } else {
                None
            },
            Option::None => None,
        },
        Option::None => if r.responses.len() > 0 {
            Some(r.responses[0])
        } else {
            None
        },
    }
}

/// A route on which nothing was ever selected answers with its first
/// declared response, when it has one.
pub proof fn lemma_default_active_response(r: RouteV)
    requires
        r.active_response is None,
        r.responses.len() > 0,
    ensures
        active_response_of(r) == Some(r.responses[0]),
{
}

pub proof fn lemma_find_response_bounds(rs: Seq<ResponseV>, id: Seq<char>, k: int)
    requires
        find_response(rs, id, k) is Some,
    ensures
        k <= find_response(rs, id, k)->Some_0 < rs.len(),
        rs[find_response(rs, id, k)->Some_0].id == id,
    decreases rs.len() - k,
{
    if !(k < 0 || k >= rs.len()) && rs[k].id != id {
        lemma_find_response_bounds(rs, id, k + 1);
    }
}

impl Route {
    /// A fresh route for the given path and method, with no responses.
    pub fn new(path: &str, method: Method) -> (r: Self)
        ensures
            r@.path == path@,
            r@.method == method,
            r@.headers.len() == 0,
            r@.responses.len() == 0,
            r@.active_response is None,
            r@.active_index is None,
            r@.wf(),
    {
        let r = Route {
            id: crate::ids::fresh_id(),
            path: String::from_str(path),
            active_response: None,
            method,
            headers: Vec::new(),
            responses: Vec::new(),
            active_response_index: None,
        };
        proof {
            assert(r@.headers =~= Seq::<HeaderV>::empty());
            assert(r@.responses =~= Seq::<ResponseV>::empty());
        }
        r
    }

    /// The identifier of the stored active-response reference, if any.
    pub fn active_response_id(&self) -> (r: Option<&String>)
        ensures
            match r {
                Option::Some(v) => self@.active_response == Some(v@),
                Option::None => self@.active_response is None,
            },
    {
        self.active_response.as_ref()
    }

    /// The active response for this route, if there is one.
    ///
    /// If no response has been selected and responses are registered, the
    /// first declared response is returned.
    pub fn get_active_response(&self) -> (r: Option<&Response>)
        ensures
            match r {
                Option::Some(resp) => active_response_of(self@) == Some(resp@),
                Option::None => active_response_of(self@) is None,
            },
    {
        match self.active_response {
            Option::None => {
                if self.responses.len() > 0 {
                    Some(&self.responses[0])
                } else {
                    None
                }
            },
            Option::Some(_) => {
                match self.active_response_index {
                    Option::Some(idx) => {
                        if idx < self.responses.len() {
                            Some(&self.responses[idx])
                        } else {
                            None
                        }
                    },
                    Option::None => None,
                }
            },
        }
    }

    /// Records the wanted active response, so that later calls to
    /// `get_active_response` return it: if a response with the given id is
    /// registered, the first such response becomes active; otherwise the
    /// stored reference no longer resolves and there is no active response.
    pub fn set_active_response(&mut self, id: &str)
        ensures
            final(self)@ == (RouteV {
                active_response: Some(id@),
                active_index: find_response(old(self)@.responses, id@, 0),
                ..old(self)@
            }),
            final(self)@.wf(),
            match find_response(old(self)@.responses, id@, 0) {
                Option::Some(idx) => active_response_of(final(self)@) == Some(
                    old(self)@.responses[idx],
                ) && old(self)@.responses[idx].id == id@,
                Option::None => active_response_of(final(self)@) is None,
            },
    {
        proof {
            assert(self@.responses == self.responses.deep_view());
        }
        let found = find_response_index(&self.responses, id);
        self.active_response = Some(String::from_str(id));
        self.active_response_index = found;
        proof {
            assert(self@.active_response == Some(id@));
            assert(self@.active_index == find_response(old(self)@.responses, id@, 0));
            assert(self@ == (RouteV {
                active_response: Some(id@),
                active_index: find_response(old(self)@.responses, id@, 0),
                ..old(self)@
            }));
            match find_response(old(self)@.responses, id@, 0) {
                Option::Some(idx) => {
                    lemma_find_response_bounds(old(self)@.responses, id@, 0);
                },
                Option::None => {},
            }
        }
    }

    /// Adds an additional response to the valid responses list. Does not
    /// update the active response.
    pub fn add_response(&mut self, response: Response)
        ensures
            final(self)@ == (RouteV {
                responses: old(self)@.responses.push(response@),
                ..old(self)@
            }),
    {
        self.responses.push(response);
        proof {
            assert(final(self)@.responses =~= old(self)@.responses.push(response@));
        }
    }

    /// Adds a header to this route's own scope.
    pub fn add_header(&mut self, header: Header)
        ensures
            final(self)@ == (RouteV { headers: old(self)@.headers.push(header@), ..old(self)@ }),
    {
        self.headers.push(header);
        proof {
            assert(final(self)@.headers =~= old(self)@.headers.push(header@));
        }
    }
}

/// First position holding a response with the given id, if any.
pub fn find_response_index(rs: &Vec<Response>, id: &str) -> (r: Option<usize>)
    ensures
        match r {
            Option::Some(k) => find_response(rs.deep_view(), id@, 0) == Some(k as int),
            Option::None => find_response(rs.deep_view(), id@, 0) is None,
        },
{
    let n = rs.len();
    let mut k: usize = 0;
    while k < n
        invariant
            n == rs@.len(),
            rs.deep_view().len() == n,
            k <= n,
            find_response(rs.deep_view(), id@, 0) == find_response(rs.deep_view(), id@, k as int),
        decreases n - k,
    {
        let same = str_eq_str(rs[k].id.as_str(), id);
        proof {
            crate::http::response::lemma_response_fields(&rs[k as int]);
            assert(rs.deep_view()[k as int] == rs@[k as int]@);
            assert(rs.deep_view()[k as int].id == rs@[k as int].id@);
        }
        if same {
            proof {
                assert(find_response(rs.deep_view(), id@, k as int) == Some(k as int));
            }
            return Some(k);
        }
        k = k + 1;
    }
    None
}

/// Compares two string slices.
pub fn str_eq_str(a: &str, b: &str) -> (r: bool)
    ensures
        r == (a@ == b@),
{
    let an: usize = a.unicode_len();
    let bn: usize = b.unicode_len();
    if an != bn {
        proof {
            assert(a@ != b@);
        }
        return false;
    }
    let mut i: usize = 0;
    while i < an
        invariant
            an == a@.len(),
            bn == b@.len(),
            an == bn,
            i <= an,
            forall|k: int| 0 <= k < i ==> a@[k] == b@[k],
        decreases an - i,
    {
        if a.get_char(i) != b.get_char(i) {
            proof {
                assert(a@[i as int] != b@[i as int]);
            }
            return false;
        }
        i = i + 1;
    }
    proof {
        assert(a@ =~= b@);
    }
    true
}

} // verus!

verus! {

// ---------------------------------------------------------------------------
// serialization
// ---------------------------------------------------------------------------
/// A route's form in the document; fields follow the declared order, and
/// the resolved index is not written.
#[verifier::opaque]
pub open spec fn ser_route(r: RouteV) -> Seq<char> {
    seq!['{'] + (ser_str_field(key_id(), r.id) + (seq![','] + (ser_str_field(key_path(), r.path)
        + (seq![','] + (ser_str_field(key_method(), method_tok(r.method)) + (seq![','] + (
    ser_string(key_headers()) + (seq![':'] + (ser_headers(r.headers) + (seq![','] + (ser_string(
        key_responses(),
    ) + (seq![':'] + (ser_responses(r.responses) + (seq![','] + (ser_string(key_active_response())
        + (seq![':'] + (ser_opt_str(r.active_response) + seq!['}'])))))))))))))))))
}

/// Appends a route in document form.
#[verifier::rlimit(100)]
pub fn emit_route(out: &mut Vec<char>, r: &Route)
    ensures
        final(out)@ == old(out)@ + ser_route(r@),
{
    proof {
        reveal(ser_route);
        reveal_strlit("id");
        reveal_strlit("path");
        reveal_strlit("method");
        reveal_strlit("headers");
        reveal_strlit("responses");
        reveal_strlit("activeResponse");
        assert("id"@ =~= key_id());
        assert("path"@ =~= key_path());
        assert("method"@ =~= key_method());
        assert("headers"@ =~= key_headers());
        assert("responses"@ =~= key_responses());
        assert("activeResponse"@ =~= key_active_response());
    }
    out.push('{');
    crate::json::emit_str_field(out, "id", self_str(&r.id));
    out.push(',');
    crate::json::emit_str_field(out, "path", self_str(&r.path));
    out.push(',');
    crate::json::emit_json_string(out, "method");
    out.push(':');
    let mname = r.method.name();
    crate::json::emit_json_string(out, mname.as_str());
    out.push(',');
    crate::json::emit_json_string(out, "headers");
    out.push(':');
    crate::http::header::emit_headers(out, &r.headers);
    out.push(',');
    crate::json::emit_json_string(out, "responses");
    out.push(':');
    crate::http::response::emit_responses(out, &r.responses);
    out.push(',');
    crate::json::emit_json_string(out, "activeResponse");
    out.push(':');
    crate::json::emit_opt_str(out, &r.active_response);
    out.push('}');
    proof {
        assert(final(out)@ =~= old(out)@ + ser_route(r@));
    }
}

/// A `String` as a slice, with its characters unchanged.
fn self_str(s: &String) -> (r: &str)
    ensures
        r@ == s@,
{
    s.as_str()
}

// ---------------------------------------------------------------------------
// parsing
// ---------------------------------------------------------------------------
/// Field values collected so far while reading a route object.
pub struct RouteSlots {
    pub id: Option<Seq<char>>,
    pub path: Option<Seq<char>>,
    pub method: Option<Method>,
    pub headers: Option<Seq<HeaderV>>,
    pub responses: Option<Seq<ResponseV>>,
    pub active_response: Option<Option<Seq<char>>>,
}

pub open spec fn route_slots_empty() -> RouteSlots {
    RouteSlots {
        id: None,
        path: None,
        method: None,
        headers: None,
        responses: None,
        active_response: None,
    }
}

/// Re-runs resolution of the stored reference against the loaded
/// responses, as selection would.
pub open spec fn resolve_loaded(r0: RouteV) -> RouteV {
    match r0.active_response {
        Option::Some(aid) => RouteV {
            active_index: find_response(r0.responses, aid, 0),
            ..r0
        },
        Option::None => r0,
    }
}

/// A complete route from filled slots; the stored reference may be
/// absent, and resolution is re-run against the loaded responses.
pub open spec fn finish_route(sl: RouteSlots, j: int) -> Option<(RouteV, int)> {
    if sl.id is Some && sl.path is Some && sl.method is Some && sl.headers is Some
        && sl.responses is Some {
        let ar = match sl.active_response {
            Option::Some(x) => x,
            Option::None => None,
        };
        let r0 = RouteV {
            id: sl.id->Some_0,
            path: sl.path->Some_0,
            method: sl.method->Some_0,
            headers: sl.headers->Some_0,
            responses: sl.responses->Some_0,
            active_response: ar,
            active_index: None,
        };
        Some((resolve_loaded(r0), j))
    } else {
        None
    }
}

/// One `"key": value` pair of a route object, starting at the key's
/// opening quote; a repeated or unknown key is rejected.
pub open spec fn parse_route_one(s: Seq<char>, i: int, sl: RouteSlots) -> Option<
    (RouteSlots, int),
> {
    match parse_jstring(s, i) {
        Option::None => None,
        Option::Some((k, j)) => {
            let j2 = skip_ws(s, j);
            if !(j2 < s.len() && s[j2] == ':') {
                None
            } else {
                let j3 = skip_ws(s, j2 + 1);
                if k == key_id() {
                    if sl.id is Some {
                        None
                    } else {
                        match parse_jstring(s, j3) {
                            Option::None => None,
                            Option::Some((v, j4)) => Some((RouteSlots { id: Some(v), ..sl }, j4)),
                        }
                    }
                } else if k == key_path() {
                    if sl.path is Some {
                        None
                    } else {
                        match parse_jstring(s, j3) {
                            Option::None => None,
                            Option::Some((v, j4)) => Some((RouteSlots { path: Some(v), ..sl }, j4)),
                        }
                    }
                } else if k == key_method() {
                    if sl.method is Some {
                        None
                    } else {
                        match parse_jstring(s, j3) {
                            Option::None => None,
                            Option::Some((v, j4)) => match method_of_tok(v) {
                                Option::None => None,
                                Option::Some(m) => Some(
                                    (RouteSlots { method: Some(m), ..sl }, j4),
                                ),
                            },
                        }
                    }
                } else if k == key_headers() {
                    if sl.headers is Some {
                        None
                    } else {
                        match parse_headers(s, j3) {
                            Option::None => None,
                            Option::Some((hs, j4)) => Some(
                                (RouteSlots { headers: Some(hs), ..sl }, j4),
                            ),
                        }
                    }
                } else if k == key_responses() {
                    if sl.responses is Some {
                        None
                    } else {
                        match parse_responses(s, j3) {
                            Option::None => None,
                            Option::Some((rs, j4)) => Some(
                                (RouteSlots { responses: Some(rs), ..sl }, j4),
                            ),
                        }
                    }
                } else if k == key_active_response() {
                    if sl.active_response is Some {
                        None
                    } else {
                        match parse_opt_str(s, j3) {
                            Option::None => None,
                            Option::Some((v, j4)) => Some(
                                (RouteSlots { active_response: Some(v), ..sl }, j4),
                            ),
                        }
                    }
                } else {
                    None
                }
            }
        },
    }
}

/// The fields of a route object, in any order, each at most once.
pub open spec fn parse_route_fields(s: Seq<char>, i: int, sl: RouteSlots, fuel: nat) -> Option<
    (RouteV, int),
>
    decreases fuel,
{
    if fuel == 0 {
        None
    } else {
        match parse_route_one(s, i, sl) {
            Option::None => None,
            Option::Some((sl2, j)) => {
                let j2 = skip_ws(s, j);
                if j2 < s.len() && s[j2] == ',' {
                    parse_route_fields(s, skip_ws(s, j2 + 1), sl2, (fuel - 1) as nat)
                } else if j2 < s.len() && s[j2] == '}' {
                    finish_route(sl2, j2 + 1)
                } else {
                    None
                }
            },
        }
    }
}

/// A route object starting exactly at `i`; the result is well formed.
pub open spec fn parse_route(s: Seq<char>, i: int) -> Option<(RouteV, int)> {
    if 0 <= i && i < s.len() && s[i] == '{' {
        let j = skip_ws(s, i + 1);
        if j < s.len() && s[j] == '}' {
            finish_route(route_slots_empty(), j + 1)
        } else {
            parse_route_fields(s, j, route_slots_empty(), 7)
        }
    } else {
        None
    }
}

pub proof fn lemma_route_one_progress(s: Seq<char>, i: int, sl: RouteSlots)
    requires
        parse_route_one(s, i, sl) is Some,
    ensures
        i < parse_route_one(s, i, sl)->Some_0.1 <= s.len(),
{
    crate::json::lemma_jstring_progress(s, i);
    let (k, j) = parse_jstring(s, i)->Some_0;
    crate::json::lemma_skip_ws_bounds(s, j);
    let j2 = skip_ws(s, j);
    crate::json::lemma_skip_ws_bounds(s, j2 + 1);
    let j3 = skip_ws(s, j2 + 1);
    if parse_jstring(s, j3) is Some {
        crate::json::lemma_jstring_progress(s, j3);
    }
    if parse_headers(s, j3) is Some {
        crate::http::header::lemma_headers_progress(s, j3);
    }
    if parse_responses(s, j3) is Some {
        crate::http::response::lemma_responses_progress(s, j3);
    }
    if parse_opt_str(s, j3) is Some {
        crate::json::lemma_opt_str_progress(s, j3);
    }
}

pub proof fn lemma_route_fields_progress(s: Seq<char>, i: int, sl: RouteSlots, fuel: nat)
    requires
        parse_route_fields(s, i, sl, fuel) is Some,
    ensures
        i < parse_route_fields(s, i, sl, fuel)->Some_0.1 <= s.len(),
    decreases fuel,
{
    let (sl2, j) = parse_route_one(s, i, sl)->Some_0;
    lemma_route_one_progress(s, i, sl);
    crate::json::lemma_skip_ws_bounds(s, j);
    let j2 = skip_ws(s, j);
    if j2 < s.len() && s[j2] == ',' {
        crate::json::lemma_skip_ws_bounds(s, j2 + 1);
        lemma_route_fields_progress(s, skip_ws(s, j2 + 1), sl2, (fuel - 1) as nat);
    }
}

pub proof fn lemma_route_progress(s: Seq<char>, i: int)
    requires
        parse_route(s, i) is Some,
    ensures
        i < parse_route(s, i)->Some_0.1 <= s.len(),
{
    crate::json::lemma_skip_ws_bounds(s, i + 1);
    let j = skip_ws(s, i + 1);
    if j < s.len() && s[j] == '}' {
    } else {
        lemma_route_fields_progress(s, j, route_slots_empty(), 7);
    }
}

/// A parsed route is well formed: its index is freshly resolved.
pub proof fn lemma_parse_route_wf(s: Seq<char>, i: int)
    requires
        parse_route(s, i) is Some,
    ensures
        parse_route(s, i)->Some_0.0.wf(),
{
    lemma_route_wf_fields(s, skip_ws(s, i + 1), route_slots_empty(), 7);
}

proof fn lemma_route_wf_fields(s: Seq<char>, i: int, sl: RouteSlots, fuel: nat)
    ensures
        parse_route_fields(s, i, sl, fuel) is Some ==> parse_route_fields(
            s,
            i,
            sl,
            fuel,
        )->Some_0.0.wf(),
    decreases fuel,
{
    if fuel > 0 {
        match parse_route_one(s, i, sl) {
            Option::None => {},
            Option::Some((sl2, j)) => {
                let j2 = skip_ws(s, j);
                if j2 < s.len() && s[j2] == ',' {
                    lemma_route_wf_fields(s, skip_ws(s, j2 + 1), sl2, (fuel - 1) as nat);
                }
            },
        }
    }
}

} // verus!

verus! {

// ---------------------------------------------------------------------------
// round trip
// ---------------------------------------------------------------------------
// Positions of the pieces of a serialized route, relative to its start.
pub open spec fn rt_p1(i: int) -> int {
    i + 1
}

pub open spec fn rt_q1(i: int, r: RouteV) -> int {
    rt_p1(i) + ser_str_field(key_id(), r.id).len()
}

pub open spec fn rt_p2(i: int, r: RouteV) -> int {
    rt_q1(i, r) + 1
}

pub open spec fn rt_q2(i: int, r: RouteV) -> int {
    rt_p2(i, r) + ser_str_field(key_path(), r.path).len()
}

pub open spec fn rt_p3(i: int, r: RouteV) -> int {
    rt_q2(i, r) + 1
}

pub open spec fn rt_q3(i: int, r: RouteV) -> int {
    rt_p3(i, r) + ser_str_field(key_method(), method_tok(r.method)).len()
}

pub open spec fn rt_p4(i: int, r: RouteV) -> int {
    rt_q3(i, r) + 1
}

pub open spec fn rt_c4(i: int, r: RouteV) -> int {
    rt_p4(i, r) + ser_string(key_headers()).len()
}

pub open spec fn rt_v4(i: int, r: RouteV) -> int {
    rt_c4(i, r) + 1
}

pub open spec fn rt_q4(i: int, r: RouteV) -> int {
    rt_v4(i, r) + ser_headers(r.headers).len()
}

pub open spec fn rt_p5(i: int, r: RouteV) -> int {
    rt_q4(i, r) + 1
}

pub open spec fn rt_c5(i: int, r: RouteV) -> int {
    rt_p5(i, r) + ser_string(key_responses()).len()
}

pub open spec fn rt_v5(i: int, r: RouteV) -> int {
    rt_c5(i, r) + 1
}

pub open spec fn rt_q5(i: int, r: RouteV) -> int {
    rt_v5(i, r) + ser_responses(r.responses).len()
}

pub open spec fn rt_p6(i: int, r: RouteV) -> int {
    rt_q5(i, r) + 1
}

pub open spec fn rt_c6(i: int, r: RouteV) -> int {
    rt_p6(i, r) + ser_string(key_active_response()).len()
}

pub open spec fn rt_v6(i: int, r: RouteV) -> int {
    rt_c6(i, r) + 1
}

pub open spec fn rt_q6(i: int, r: RouteV) -> int {
    rt_v6(i, r) + ser_opt_str(r.active_response).len()
}

/// What each token parser returns at each piece of a serialized route.
pub open spec fn route_pieces_ok(s: Seq<char>, i: int, r: RouteV) -> bool {
    &&& 0 <= i
    &&& rt_q6(i, r) + 1 <= s.len()
    &&& s[i] == '{'
    &&& s[rt_p1(i)] == '"'
    &&& parse_jstring(s, rt_p1(i)) == Some((key_id(), rt_p1(i) + ser_string(key_id()).len()))
    &&& s[rt_p1(i) + ser_string(key_id()).len()] == ':'
    &&& parse_jstring(s, rt_p1(i) + ser_string(key_id()).len() + 1) == Some((r.id, rt_q1(i, r)))
    &&& s[rt_p1(i) + ser_string(key_id()).len() + 1] == '"'
    &&& s[rt_q1(i, r)] == ','
    &&& s[rt_p2(i, r)] == '"'
    &&& parse_jstring(s, rt_p2(i, r)) == Some(
        (key_path(), rt_p2(i, r) + ser_string(key_path()).len()),
    )
    &&& s[rt_p2(i, r) + ser_string(key_path()).len()] == ':'
    &&& parse_jstring(s, rt_p2(i, r) + ser_string(key_path()).len() + 1) == Some(
        (r.path, rt_q2(i, r)),
    )
    &&& s[rt_p2(i, r) + ser_string(key_path()).len() + 1] == '"'
    &&& s[rt_q2(i, r)] == ','
    &&& s[rt_p3(i, r)] == '"'
    &&& parse_jstring(s, rt_p3(i, r)) == Some(
        (key_method(), rt_p3(i, r) + ser_string(key_method()).len()),
    )
    &&& s[rt_p3(i, r) + ser_string(key_method()).len()] == ':'
    &&& parse_jstring(s, rt_p3(i, r) + ser_string(key_method()).len() + 1) == Some(
        (method_tok(r.method), rt_q3(i, r)),
    )
    &&& s[rt_p3(i, r) + ser_string(key_method()).len() + 1] == '"'
    &&& s[rt_q3(i, r)] == ','
    &&& s[rt_p4(i, r)] == '"'
    &&& parse_jstring(s, rt_p4(i, r)) == Some((key_headers(), rt_c4(i, r)))
    &&& s[rt_c4(i, r)] == ':'
    &&& s[rt_v4(i, r)] == '['
    &&& parse_headers(s, rt_v4(i, r)) == Some((r.headers, rt_q4(i, r)))
    &&& s[rt_q4(i, r)] == ','
    &&& s[rt_p5(i, r)] == '"'
    &&& parse_jstring(s, rt_p5(i, r)) == Some((key_responses(), rt_c5(i, r)))
    &&& s[rt_c5(i, r)] == ':'
    &&& s[rt_v5(i, r)] == '['
    &&& parse_responses(s, rt_v5(i, r)) == Some((r.responses, rt_q5(i, r)))
    &&& s[rt_q5(i, r)] == ','
    &&& s[rt_p6(i, r)] == '"'
    &&& parse_jstring(s, rt_p6(i, r)) == Some((key_active_response(), rt_c6(i, r)))
    &&& s[rt_c6(i, r)] == ':'
    &&& !crate::text::is_ws(s[rt_v6(i, r)])
    &&& parse_opt_str(s, rt_v6(i, r)) == Some((r.active_response, rt_q6(i, r)))
    &&& s[rt_q6(i, r)] == '}'
}

/// Locates every piece of a serialized route and runs the token parsers
/// on them.
#[verifier::rlimit(100)]
pub proof fn lemma_route_pieces(s: Seq<char>, i: int, r: RouteV)
    requires
        0 <= i,
        i + ser_route(r).len() <= s.len(),
        s.subrange(i, i + ser_route(r).len()) == ser_route(r),
    ensures
        route_pieces_ok(s, i, r),
        rt_q6(i, r) + 1 == i + ser_route(r).len(),
{
    reveal(ser_route);
    let f1 = ser_str_field(key_id(), r.id);
    let f2 = ser_str_field(key_path(), r.path);
    let f3 = ser_str_field(key_method(), method_tok(r.method));
    let k4 = ser_string(key_headers());
    let h4 = ser_headers(r.headers);
    let k5 = ser_string(key_responses());
    let rs5 = ser_responses(r.responses);
    let k6 = ser_string(key_active_response());
    let a6 = ser_opt_str(r.active_response);
    let r1 = f1 + (seq![','] + (f2 + (seq![','] + (f3 + (seq![','] + (k4 + (seq![':'] + (h4 + (
    seq![','] + (k5 + (seq![':'] + (rs5 + (seq![','] + (k6 + (seq![':'] + (a6
        + seq!['}']))))))))))))))));
    crate::json::lemma_concat_subrange(s, i, seq!['{'], r1);
    assert(s[i] == s.subrange(i, i + 1)[0]);
    let p1 = i + 1;
    let r2 = seq![','] + (f2 + (seq![','] + (f3 + (seq![','] + (k4 + (seq![':'] + (h4 + (seq![',']
        + (k5 + (seq![':'] + (rs5 + (seq![','] + (k6 + (seq![':'] + (a6 + seq!['}'])))))))))))))));
    crate::json::lemma_concat_subrange(s, p1, f1, r2);
    crate::json::lemma_step_str_field(s, p1, key_id(), r.id);
    let q1 = p1 + f1.len();
    let r3 = f2 + (seq![','] + (f3 + (seq![','] + (k4 + (seq![':'] + (h4 + (seq![','] + (k5 + (
    seq![':'] + (rs5 + (seq![','] + (k6 + (seq![':'] + (a6 + seq!['}'])))))))))))))) ;
    crate::json::lemma_concat_subrange(s, q1, seq![','], r3);
    assert(s[q1] == s.subrange(q1, q1 + 1)[0]);
    let p2 = q1 + 1;
    let r4 = seq![','] + (f3 + (seq![','] + (k4 + (seq![':'] + (h4 + (seq![','] + (k5 + (seq![':']
        + (rs5 + (seq![','] + (k6 + (seq![':'] + (a6 + seq!['}'])))))))))))));
    crate::json::lemma_concat_subrange(s, p2, f2, r4);
    crate::json::lemma_step_str_field(s, p2, key_path(), r.path);
    let q2 = p2 + f2.len();
    let r5 = f3 + (seq![','] + (k4 + (seq![':'] + (h4 + (seq![','] + (k5 + (seq![':'] + (rs5 + (
    seq![','] + (k6 + (seq![':'] + (a6 + seq!['}']))))))))))));
    crate::json::lemma_concat_subrange(s, q2, seq![','], r5);
    assert(s[q2] == s.subrange(q2, q2 + 1)[0]);
    let p3 = q2 + 1;
    let r6 = seq![','] + (k4 + (seq![':'] + (h4 + (seq![','] + (k5 + (seq![':'] + (rs5 + (seq![',']
        + (k6 + (seq![':'] + (a6 + seq!['}'])))))))))));
    crate::json::lemma_concat_subrange(s, p3, f3, r6);
    crate::json::lemma_step_str_field(s, p3, key_method(), method_tok(r.method));
    let q3 = p3 + f3.len();
    let r7 = k4 + (seq![':'] + (h4 + (seq![','] + (k5 + (seq![':'] + (rs5 + (seq![','] + (k6 + (
    seq![':'] + (a6 + seq!['}'])))))))))) ;
    crate::json::lemma_concat_subrange(s, q3, seq![','], r7);
    assert(s[q3] == s.subrange(q3, q3 + 1)[0]);
    let p4 = q3 + 1;
    let r8 = seq![':'] + (h4 + (seq![','] + (k5 + (seq![':'] + (rs5 + (seq![','] + (k6 + (seq![':']
        + (a6 + seq!['}'])))))))));
    crate::json::lemma_concat_subrange(s, p4, k4, r8);
    crate::json::lemma_parse_ser_string(s, p4, key_headers());
    assert(s[p4] == s.subrange(p4, p4 + k4.len())[0]);
    let c4 = p4 + k4.len();
    let r9 = h4 + (seq![','] + (k5 + (seq![':'] + (rs5 + (seq![','] + (k6 + (seq![':'] + (a6
        + seq!['}']))))))));
    crate::json::lemma_concat_subrange(s, c4, seq![':'], r9);
    assert(s[c4] == s.subrange(c4, c4 + 1)[0]);
    let v4 = c4 + 1;
    let r10 = seq![','] + (k5 + (seq![':'] + (rs5 + (seq![','] + (k6 + (seq![':'] + (a6
        + seq!['}'])))))));
    crate::json::lemma_concat_subrange(s, v4, h4, r10);
    crate::http::header::lemma_parse_ser_headers(s, v4, r.headers);
    assert(s[v4] == s.subrange(v4, v4 + h4.len())[0]);
    let q4 = v4 + h4.len();
    let r11 = k5 + (seq![':'] + (rs5 + (seq![','] + (k6 + (seq![':'] + (a6 + seq!['}']))))));
    crate::json::lemma_concat_subrange(s, q4, seq![','], r11);
    assert(s[q4] == s.subrange(q4, q4 + 1)[0]);
    let p5 = q4 + 1;
    let r12 = seq![':'] + (rs5 + (seq![','] + (k6 + (seq![':'] + (a6 + seq!['}'])))));
    crate::json::lemma_concat_subrange(s, p5, k5, r12);
    crate::json::lemma_parse_ser_string(s, p5, key_responses());
    assert(s[p5] == s.subrange(p5, p5 + k5.len())[0]);
    let c5 = p5 + k5.len();
    let r13 = rs5 + (seq![','] + (k6 + (seq![':'] + (a6 + seq!['}']))));
    crate::json::lemma_concat_subrange(s, c5, seq![':'], r13);
    assert(s[c5] == s.subrange(c5, c5 + 1)[0]);
    let v5 = c5 + 1;
    let r14 = seq![','] + (k6 + (seq![':'] + (a6 + seq!['}'])));
    crate::json::lemma_concat_subrange(s, v5, rs5, r14);
    crate::http::response::lemma_parse_ser_responses(s, v5, r.responses);
    assert(s[v5] == s.subrange(v5, v5 + rs5.len())[0]);
    let q5 = v5 + rs5.len();
    let r15 = k6 + (seq![':'] + (a6 + seq!['}']));
    crate::json::lemma_concat_subrange(s, q5, seq![','], r15);
    assert(s[q5] == s.subrange(q5, q5 + 1)[0]);
    let p6 = q5 + 1;
    let r16 = seq![':'] + (a6 + seq!['}']);
    crate::json::lemma_concat_subrange(s, p6, k6, r16);
    crate::json::lemma_parse_ser_string(s, p6, key_active_response());
    assert(s[p6] == s.subrange(p6, p6 + k6.len())[0]);
    let c6 = p6 + k6.len();
    let r17 = a6 + seq!['}'];
    crate::json::lemma_concat_subrange(s, c6, seq![':'], r17);
    assert(s[c6] == s.subrange(c6, c6 + 1)[0]);
    let v6 = c6 + 1;
    crate::json::lemma_concat_subrange(s, v6, a6, seq!['}']);
    crate::json::lemma_parse_ser_opt_str(s, v6, r.active_response);
    assert(s[v6] == s.subrange(v6, v6 + a6.len())[0]);
    assert(!crate::text::is_ws(s[v6])) by {
        match r.active_response {
            Option::Some(v) => {
                assert(a6[0] == '"');
            },
            Option::None => {
                assert(a6[0] == 'n');
            },
        }
    }
    let q6 = v6 + a6.len();
    assert(s[q6] == s.subrange(q6, q6 + 1)[0]);
}

/// The route parser inverts the route serializer on well-formed routes.
#[verifier::rlimit(100)]
pub proof fn lemma_parse_ser_route(s: Seq<char>, i: int, r: RouteV)
    requires
        r.wf(),
        0 <= i,
        i + ser_route(r).len() <= s.len(),
        s.subrange(i, i + ser_route(r).len()) == ser_route(r),
    ensures
        parse_route(s, i) == Some((r, i + ser_route(r).len())),
{
    lemma_route_pieces(s, i, r);
    assert(key_id().len() == 2);
    assert(key_path().len() == 4);
    assert(key_method().len() == 6);
    assert(key_headers().len() == 7);
    assert(key_responses().len() == 9);
    assert(key_active_response().len() == 14);
    let p1 = rt_p1(i);
    let q1 = rt_q1(i, r);
    let p2 = rt_p2(i, r);
    let q2 = rt_q2(i, r);
    let p3 = rt_p3(i, r);
    let q3 = rt_q3(i, r);
    let p4 = rt_p4(i, r);
    let c4 = rt_c4(i, r);
    let v4 = rt_v4(i, r);
    let q4 = rt_q4(i, r);
    let p5 = rt_p5(i, r);
    let c5 = rt_c5(i, r);
    let v5 = rt_v5(i, r);
    let q5 = rt_q5(i, r);
    let p6 = rt_p6(i, r);
    let c6 = rt_c6(i, r);
    let v6 = rt_v6(i, r);
    let q6 = rt_q6(i, r);
    let sl0 = route_slots_empty();
    let sl1 = RouteSlots { id: Some(r.id), ..sl0 };
    let sl2 = RouteSlots { path: Some(r.path), ..sl1 };
    let sl3 = RouteSlots { method: Some(r.method), ..sl2 };
    let sl4 = RouteSlots { headers: Some(r.headers), ..sl3 };
    let sl5 = RouteSlots { responses: Some(r.responses), ..sl4 };
    let sl6 = RouteSlots { active_response: Some(r.active_response), ..sl5 };
    assert(skip_ws(s, p1) == p1);
    assert(skip_ws(s, p1 + ser_string(key_id()).len()) == p1 + ser_string(key_id()).len());
    assert(skip_ws(s, p1 + ser_string(key_id()).len() + 1) == p1 + ser_string(key_id()).len() + 1);
    assert(parse_route_one(s, p1, sl0) == Some((sl1, q1)));
    assert(skip_ws(s, q1) == q1);
    assert(skip_ws(s, p2) == p2);
    assert(skip_ws(s, p2 + ser_string(key_path()).len()) == p2 + ser_string(key_path()).len());
    assert(skip_ws(s, p2 + ser_string(key_path()).len() + 1) == p2 + ser_string(key_path()).len()
        + 1);
    assert(parse_route_one(s, p2, sl1) == Some((sl2, q2)));
    assert(skip_ws(s, q2) == q2);
    assert(skip_ws(s, p3) == p3);
    assert(skip_ws(s, p3 + ser_string(key_method()).len()) == p3 + ser_string(key_method()).len());
    assert(skip_ws(s, p3 + ser_string(key_method()).len() + 1) == p3 + ser_string(
        key_method(),
    ).len() + 1);
    crate::http::method::lemma_method_tok_round_trip(r.method);
    assert(parse_route_one(s, p3, sl2) == Some((sl3, q3)));
    assert(skip_ws(s, q3) == q3);
    assert(skip_ws(s, p4) == p4);
    assert(skip_ws(s, c4) == c4);
    assert(skip_ws(s, v4) == v4);
    assert(parse_route_one(s, p4, sl3) == Some((sl4, q4)));
    assert(skip_ws(s, q4) == q4);
    assert(skip_ws(s, p5) == p5);
    assert(skip_ws(s, c5) == c5);
    assert(skip_ws(s, v5) == v5);
    assert(parse_route_one(s, p5, sl4) == Some((sl5, q5)));
    assert(skip_ws(s, q5) == q5);
    assert(skip_ws(s, p6) == p6);
    assert(skip_ws(s, c6) == c6);
    assert(skip_ws(s, v6) == v6);
    assert(parse_route_one(s, p6, sl5) == Some((sl6, q6)));
    assert(skip_ws(s, q6) == q6);
    assert(parse_route_fields(s, p6, sl5, 2) == finish_route(sl6, q6 + 1));
    let r0 = RouteV {
        id: r.id,
        path: r.path,
        method: r.method,
        headers: r.headers,
        responses: r.responses,
        active_response: r.active_response,
        active_index: None,
    };
    assert(finish_route(sl6, q6 + 1) == Some((resolve_loaded(r0), q6 + 1)));
    assert(resolve_loaded(r0) == r) by {
        match r.active_response {
            Option::Some(aid) => {
                assert(r.active_index == find_response(r.responses, aid, 0));
            },
            Option::None => {
                assert(r.active_index is None);
            },
        }
    }
    assert(parse_route_fields(s, p5, sl4, 3) == parse_route_fields(s, p6, sl5, 2));
    assert(parse_route_fields(s, p4, sl3, 4) == parse_route_fields(s, p5, sl4, 3));
    assert(parse_route_fields(s, p3, sl2, 5) == parse_route_fields(s, p4, sl3, 4));
    assert(parse_route_fields(s, p2, sl1, 6) == parse_route_fields(s, p3, sl2, 5));
    assert(parse_route_fields(s, p1, sl0, 7) == parse_route_fields(s, p2, sl1, 6));
    assert(q6 + 1 == i + ser_route(r).len());
    assert(s[i] == '{');
    assert(skip_ws(s, i + 1) == p1);
    assert(parse_route(s, i) == parse_route_fields(s, p1, sl0, 7));
}

} // verus!

verus! {

// ---------------------------------------------------------------------------
// executable parser
// ---------------------------------------------------------------------------
pub open spec fn slot_view(o: Option<String>) -> Option<Seq<char>> {
    match o {
        Option::Some(x) => Some(x@),
        Option::None => None,
    }
}

pub open spec fn slot_view_headers(o: Option<Vec<Header>>) -> Option<Seq<HeaderV>> {
    match o {
        Option::Some(x) => Some(x.deep_view()),
        Option::None => None,
    }
}

pub open spec fn slot_view_responses(o: Option<Vec<Response>>) -> Option<Seq<ResponseV>> {
    match o {
        Option::Some(x) => Some(x.deep_view()),
        Option::None => None,
    }
}

pub open spec fn slot_view_opt(o: Option<Option<String>>) -> Option<Option<Seq<char>>> {
    match o {
        Option::Some(x) => Some(slot_view(x)),
        Option::None => None,
    }
}

/// Reads a route object starting exactly at `i`, re-resolving the stored
/// reference; on failure reports the position where parsing stopped.
pub fn parse_route_exec(s: &Vec<char>, i: usize) -> (r: Result<(Route, usize), usize>)
    requires
        i <= s@.len(),
    ensures
        r matches Ok(p) ==> parse_route(s@, i as int) == Some((p.0@, p.1 as int)) && i < p.1
            <= s@.len(),
        r is Err ==> parse_route(s@, i as int) is None,
{
    if i == s.len() || s[i] != '{' {
        return Err(i);
    }
    let mut k: usize = crate::json::ws_to(s, i + 1);
    if k < s.len() && s[k] == '}' {
        return Err(k);
    }
    let mut id: Option<String> = None;
    let mut path: Option<String> = None;
    let mut method: Option<Method> = None;
    let mut headers: Option<Vec<Header>> = None;
    let mut responses: Option<Vec<Response>> = None;
    let mut active_response: Option<Option<String>> = None;
    let mut fuel: u8 = 7;
    loop
        invariant
            i < k <= s@.len(),
            parse_route(s@, i as int) == parse_route_fields(
                s@,
                k as int,
                (RouteSlots {
                    id: slot_view(id),
                    path: slot_view(path),
                    method: method,
                    headers: slot_view_headers(headers),
                    responses: slot_view_responses(responses),
                    active_response: slot_view_opt(active_response),
                }),
                fuel as nat,
            ),
        decreases fuel,
    {
        proof {
            reveal_strlit("id");
            reveal_strlit("path");
            reveal_strlit("method");
            reveal_strlit("headers");
            reveal_strlit("responses");
            reveal_strlit("activeResponse");
            assert("id"@ =~= key_id());
            assert("path"@ =~= key_path());
            assert("method"@ =~= key_method());
            assert("headers"@ =~= key_headers());
            assert("responses"@ =~= key_responses());
            assert("activeResponse"@ =~= key_active_response());
        }
        if fuel == 0 {
            return Err(k);
        }
        let (kt, j) = match crate::json::parse_string_exec(s, k) {
            Ok(p) => p,
            Err(e) => {
                return Err(e);
            },
        };
        let j2 = crate::json::ws_to(s, j);
        if !(j2 < s.len() && s[j2] == ':') {
            return Err(j2);
        }
        let j3 = crate::json::ws_to(s, j2 + 1);
        let jnext: usize;
        if crate::text::chars_eq_str(&kt, "id") {
            if id.is_some() {
                return Err(j3);
            }
            let (v, j4) = match crate::json::parse_string_exec(s, j3) {
                Ok(p) => p,
                Err(e) => {
                    return Err(e);
                },
            };
            id = Some(crate::text::chars_to_string(&v));
            jnext = j4;
        } else if crate::text::chars_eq_str(&kt, "path") {
            if path.is_some() {
                return Err(j3);
            }
            let (v, j4) = match crate::json::parse_string_exec(s, j3) {
                Ok(p) => p,
                Err(e) => {
                    return Err(e);
                },
            };
            path = Some(crate::text::chars_to_string(&v));
            jnext = j4;
        } else if crate::text::chars_eq_str(&kt, "method") {
            if method.is_some() {
                return Err(j3);
            }
            let (v, j4) = match crate::json::parse_string_exec(s, j3) {
                Ok(p) => p,
                Err(e) => {
                    return Err(e);
                },
            };
            let m = match Method::from_chars(&v) {
                Some(m) => m,
                None => {
                    return Err(j3);
                },
            };
            method = Some(m);
            jnext = j4;
        } else if crate::text::chars_eq_str(&kt, "headers") {
            if headers.is_some() {
                return Err(j3);
            }
            let (v, j4) = match parse_headers_exec(s, j3) {
                Ok(p) => p,
                Err(e) => {
                    return Err(e);
                },
            };
            headers = Some(v);
            jnext = j4;
        } else if crate::text::chars_eq_str(&kt, "responses") {
            if responses.is_some() {
                return Err(j3);
            }
            let (v, j4) = match parse_responses_exec(s, j3) {
                Ok(p) => p,
                Err(e) => {
                    return Err(e);
                },
            };
            responses = Some(v);
            jnext = j4;
        } else if crate::text::chars_eq_str(&kt, "activeResponse") {
            if active_response.is_some() {
                return Err(j3);
            }
            let (v, j4) = match crate::json::parse_opt_str_exec(s, j3) {
                Ok(p) => p,
                Err(e) => {
                    return Err(e);
                },
            };
            let vs: Option<String> = match v {
                Some(c) => Some(crate::text::chars_to_string(&c)),
                None => None,
            };
            active_response = Some(vs);
            jnext = j4;
        } else {
            return Err(k);
        }
        let j5 = crate::json::ws_to(s, jnext);
        if j5 < s.len() && s[j5] == ',' {
            k = crate::json::ws_to(s, j5 + 1);
            fuel = fuel - 1;
        } else if j5 < s.len() && s[j5] == '}' {
            match (id, path, method, headers, responses) {
                (Some(a), Some(b), Some(c), Some(d), Some(e)) => {
                    let ar: Option<String> = match active_response {
                        Some(x) => x,
                        None => None,
                    };
                    let mut route = Route {
                        id: a,
                        path: b,
                        method: c,
                        headers: d,
                        responses: e,
                        active_response: None,
                        active_response_index: None,
                    };
                    match ar {
                        Some(aid) => {
                            route.set_active_response(aid.as_str());
                        },
                        None => {},
                    }
                    return Ok((route, j5 + 1));
                },
                _ => {
                    return Err(j5);
                },
            }
        } else {
            return Err(j5);
        }
    }
}

// ---------------------------------------------------------------------------
// lists of routes
// ---------------------------------------------------------------------------
/// The items of a route list, separated by commas.
pub open spec fn ser_route_items(rs: Seq<RouteV>) -> Seq<char>
    decreases rs.len(),
{
    if rs.len() == 0 {
        Seq::empty()
    } else if rs.len() == 1 {
        ser_route(rs[0])
    } else {
        ser_route(rs[0]) + (seq![','] + ser_route_items(rs.drop_first()))
    }
}

/// A route list's form in the document.
pub open spec fn ser_routes(rs: Seq<RouteV>) -> Seq<char> {
    seq!['['] + (ser_route_items(rs) + seq![']'])
}

/// One or more comma-separated routes followed by the closing bracket.
pub open spec fn parse_route_items(s: Seq<char>, i: int, acc: Seq<RouteV>) -> Option<
    (Seq<RouteV>, int),
>
    decreases s.len() - i,
    via check_parse_route_items
{
    match parse_route(s, i) {
        Option::None => None,
        Option::Some((h, j)) => {
            let j2 = skip_ws(s, j);
            if j2 < s.len() && s[j2] == ',' {
                parse_route_items(s, skip_ws(s, j2 + 1), acc.push(h))
            } else if j2 < s.len() && s[j2] == ']' {
                Some((acc.push(h), j2 + 1))
            } else {
                None
            }
        },
    }
}

#[via_fn]
proof fn check_parse_route_items(s: Seq<char>, i: int, acc: Seq<RouteV>) {
    if parse_route(s, i) is Some {
        lemma_route_progress(s, i);
        let j = parse_route(s, i)->Some_0.1;
        crate::json::lemma_skip_ws_bounds(s, j);
        let j2 = skip_ws(s, j);
        if j2 < s.len() && s[j2] == ',' {
            crate::json::lemma_skip_ws_bounds(s, j2 + 1);
        }
    }
}

/// A route list starting exactly at `i`.
pub open spec fn parse_routes(s: Seq<char>, i: int) -> Option<(Seq<RouteV>, int)> {
    if 0 <= i && i < s.len() && s[i] == '[' {
        let j = skip_ws(s, i + 1);
        if j < s.len() && s[j] == ']' {
            Some((Seq::empty(), j + 1))
        } else {
            parse_route_items(s, j, Seq::empty())
        }
    } else {
        None
    }
}

pub proof fn lemma_route_items_progress(s: Seq<char>, i: int, acc: Seq<RouteV>)
    requires
        parse_route_items(s, i, acc) is Some,
    ensures
        i < parse_route_items(s, i, acc)->Some_0.1 <= s.len(),
    decreases s.len() - i,
{
    lemma_route_progress(s, i);
    let j = parse_route(s, i)->Some_0.1;
    crate::json::lemma_skip_ws_bounds(s, j);
    let j2 = skip_ws(s, j);
    if j2 < s.len() && s[j2] == ',' {
        crate::json::lemma_skip_ws_bounds(s, j2 + 1);
        lemma_route_items_progress(s, skip_ws(s, j2 + 1), acc.push(parse_route(s, i)->Some_0.0));
    }
}

pub proof fn lemma_routes_progress(s: Seq<char>, i: int)
    requires
        parse_routes(s, i) is Some,
    ensures
        i < parse_routes(s, i)->Some_0.1 <= s.len(),
{
    crate::json::lemma_skip_ws_bounds(s, i + 1);
    let j = skip_ws(s, i + 1);
    if j < s.len() && s[j] == ']' {
    } else {
        lemma_route_items_progress(s, j, Seq::empty());
    }
}

/// Every route of a parsed route list is well formed.
pub proof fn lemma_parse_routes_wf(s: Seq<char>, i: int)
    requires
        parse_routes(s, i) is Some,
    ensures
        forall|k: int|
            0 <= k < parse_routes(s, i)->Some_0.0.len() ==> (#[trigger] parse_routes(
                s,
                i,
            )->Some_0.0[k]).wf(),
{
    let j = skip_ws(s, i + 1);
    if j < s.len() && s[j] == ']' {
    } else {
        lemma_route_items_wf(s, j, Seq::empty());
    }
}

proof fn lemma_route_items_wf(s: Seq<char>, i: int, acc: Seq<RouteV>)
    requires
        parse_route_items(s, i, acc) is Some,
        forall|k: int| 0 <= k < acc.len() ==> (#[trigger] acc[k]).wf(),
    ensures
        forall|k: int|
            0 <= k < parse_route_items(s, i, acc)->Some_0.0.len() ==> (#[trigger] parse_route_items(
                s,
                i,
                acc,
            )->Some_0.0[k]).wf(),
    decreases s.len() - i,
{
    lemma_route_progress(s, i);
    lemma_parse_route_wf(s, i);
    let (h, j) = parse_route(s, i)->Some_0;
    crate::json::lemma_skip_ws_bounds(s, j);
    let j2 = skip_ws(s, j);
    assert(forall|k: int| 0 <= k < acc.push(h).len() ==> (#[trigger] acc.push(h)[k]).wf());
    if j2 < s.len() && s[j2] == ',' {
        crate::json::lemma_skip_ws_bounds(s, j2 + 1);
        lemma_route_items_wf(s, skip_ws(s, j2 + 1), acc.push(h));
    }
}

/// A serialized route always begins with an opening brace.
pub proof fn lemma_ser_route_first(r: RouteV)
    ensures
        ser_route(r).len() > 0,
        ser_route(r)[0] == '{',
{
    reveal(ser_route);
}

/// The item parser inverts the item serializer for a non-empty list of
/// well-formed routes.
#[verifier::rlimit(100)]
pub proof fn lemma_parse_ser_route_items(s: Seq<char>, i: int, acc: Seq<RouteV>, rs: Seq<RouteV>)
    requires
        rs.len() >= 1,
        forall|k: int| 0 <= k < rs.len() ==> (#[trigger] rs[k]).wf(),
        0 <= i,
        i + ser_route_items(rs).len() + 1 <= s.len(),
        s.subrange(i, i + ser_route_items(rs).len() + 1) == ser_route_items(rs) + seq![']'],
    ensures
        parse_route_items(s, i, acc) == Some((acc + rs, i + ser_route_items(rs).len() + 1)),
    decreases rs.len(),
{
    assert(rs[0].wf());
    if rs.len() == 1 {
        assert(ser_route_items(rs) == ser_route(rs[0]));
        crate::json::lemma_concat_subrange(s, i, ser_route(rs[0]), seq![']']);
        lemma_parse_ser_route(s, i, rs[0]);
        let j = i + ser_route(rs[0]).len();
        assert(s[j] == s.subrange(j, j + 1)[0]);
        assert(skip_ws(s, j) == j);
        assert(acc.push(rs[0]) =~= acc + rs);
    } else {
        let tail = rs.drop_first();
        let a = ser_route(rs[0]);
        let r = ser_route_items(tail) + seq![']'];
        assert(ser_route_items(rs) + seq![']'] =~= a + (seq![','] + r));
        crate::json::lemma_concat_subrange(s, i, a, seq![','] + r);
        crate::json::lemma_concat_subrange(s, i + a.len(), seq![','], r);
        lemma_parse_ser_route(s, i, rs[0]);
        let j = i + a.len();
        assert(s[j] == s.subrange(j, j + 1)[0]);
        assert(skip_ws(s, j) == j);
        let p = j + 1;
        assert(s.subrange(p, p + r.len()) == r);
        lemma_ser_route_first(tail[0]);
        assert(ser_route_items(tail)[0] == '{') by {
            if tail.len() == 1 {
            } else {
                assert(ser_route_items(tail)[0] == ser_route(tail[0])[0]);
            }
        }
        assert(s[p] == s.subrange(p, p + r.len())[0]);
        assert(s[p] == '{');
        assert(skip_ws(s, p) == p);
        assert(forall|k: int| 0 <= k < tail.len() ==> (#[trigger] tail[k]).wf()) by {
            assert(forall|k: int| 0 <= k < tail.len() ==> tail[k] == rs[k + 1]);
        }
        lemma_parse_ser_route_items(s, p, acc.push(rs[0]), tail);
        assert(acc.push(rs[0]) + tail =~= acc + rs);
    }
}

/// The route-list parser inverts the route-list serializer on
/// well-formed routes.
pub proof fn lemma_parse_ser_routes(s: Seq<char>, i: int, rs: Seq<RouteV>)
    requires
        forall|k: int| 0 <= k < rs.len() ==> (#[trigger] rs[k]).wf(),
        0 <= i,
        i + ser_routes(rs).len() <= s.len(),
        s.subrange(i, i + ser_routes(rs).len()) == ser_routes(rs),
    ensures
        parse_routes(s, i) == Some((rs, i + ser_routes(rs).len())),
{
    let items = ser_route_items(rs);
    crate::json::lemma_concat_subrange(s, i, seq!['['], items + seq![']']);
    assert(s[i] == s.subrange(i, i + 1)[0]);
    let p = i + 1;
    assert(s.subrange(p, p + items.len() + 1) == items + seq![']']);
    if rs.len() == 0 {
        assert(s[p] == s.subrange(p, p + 1)[0]);
        assert(s[p] == ']');
        assert(skip_ws(s, p) == p);
        assert(parse_routes(s, i) == Some((Seq::<RouteV>::empty(), p + 1)));
        assert(rs =~= Seq::<RouteV>::empty());
    } else {
        lemma_ser_route_first(rs[0]);
        assert(items[0] == '{') by {
            if rs.len() == 1 {
            } else {
                assert(items[0] == ser_route(rs[0])[0]);
            }
        }
        assert(s[p] == s.subrange(p, p + items.len() + 1)[0]);
        assert(s[p] == '{');
        assert(skip_ws(s, p) == p);
        lemma_parse_ser_route_items(s, p, Seq::empty(), rs);
        assert(Seq::empty() + rs =~= rs);
    }
}

/// Appending one item to a list appends its form after a comma.
#[verifier::rlimit(100)]
pub proof fn lemma_ser_route_items_snoc(rs: Seq<RouteV>, r: RouteV)
    ensures
        rs.len() == 0 ==> ser_route_items(rs.push(r)) == ser_route(r),
        rs.len() > 0 ==> ser_route_items(rs.push(r)) == ser_route_items(rs) + seq![','] + ser_route(
            r,
        ),
    decreases rs.len(),
{
    if rs.len() == 0 {
        assert(rs.push(r).len() == 1);
        assert(rs.push(r)[0] == r);
    } else {
        assert(rs.push(r)[0] == rs[0]);
        assert(rs.push(r).drop_first() =~= rs.drop_first().push(r));
        lemma_ser_route_items_snoc(rs.drop_first(), r);
        if rs.len() == 1 {
            assert(rs.push(r).len() == 2);
            assert(ser_route_items(rs.push(r)) == ser_route(rs[0]) + (seq![','] + ser_route_items(
                rs.drop_first().push(r),
            )));
            assert(ser_route_items(rs.drop_first().push(r)) == ser_route(r));
            assert(ser_route_items(rs.push(r)) =~= ser_route_items(rs) + seq![','] + ser_route(r));
        } else {
            assert(ser_route_items(rs.push(r)) =~= ser_route_items(rs) + seq![','] + ser_route(r));
        }
    }
}

/// Appends a route list in document form.
pub fn emit_routes(out: &mut Vec<char>, rs: &Vec<Route>)
    ensures
        final(out)@ == old(out)@ + ser_routes(rs.deep_view()),
{
    out.push('[');
    let n = rs.len();
    let mut m: usize = 0;
    while m < n
        invariant
            n == rs@.len(),
            m <= n,
            rs.deep_view().len() == n,
            out@ == old(out)@ + seq!['['] + ser_route_items(rs.deep_view().take(m as int)),
        decreases n - m,
    {
        if m > 0 {
            out.push(',');
        }
        emit_route(out, &rs[m]);
        m = m + 1;
        proof {
            let dv = rs.deep_view();
            assert(dv.take(m as int) =~= dv.take(m as int - 1).push(dv[m as int - 1]));
            assert(rs[m as int - 1].deep_view() == dv[m as int - 1]);
            lemma_ser_route_items_snoc(dv.take(m as int - 1), dv[m as int - 1]);
            assert(out@ =~= old(out)@ + seq!['['] + ser_route_items(dv.take(m as int)));
        }
    }
    out.push(']');
    proof {
        assert(rs.deep_view().take(n as int) =~= rs.deep_view());
        assert(out@ =~= old(out)@ + ser_routes(rs.deep_view()));
    }
}

/// Reads a route list starting exactly at `i`.
pub fn parse_routes_exec(s: &Vec<char>, i: usize) -> (r: Result<(Vec<Route>, usize), usize>)
    requires
        i <= s@.len(),
    ensures
        r matches Ok(p) ==> parse_routes(s@, i as int) == Some((p.0.deep_view(), p.1 as int)) && i
            < p.1 <= s@.len(),
        r is Err ==> parse_routes(s@, i as int) is None,
{
    if i == s.len() || s[i] != '[' {
        return Err(i);
    }
    let mut k: usize = crate::json::ws_to(s, i + 1);
    let mut acc: Vec<Route> = Vec::new();
    proof {
        assert(acc.deep_view() =~= Seq::<RouteV>::empty());
    }
    if k < s.len() && s[k] == ']' {
        return Ok((acc, k + 1));
    }
    loop
        invariant
            i < k <= s@.len(),
            parse_routes(s@, i as int) == parse_route_items(s@, k as int, acc.deep_view()),
        decreases s@.len() - k,
    {
        let (h, j) = match parse_route_exec(s, k) {
            Ok(p) => p,
            Err(e) => {
                return Err(e);
            },
        };
        let ghost old_acc = acc.deep_view();
        acc.push(h);
        proof {
            assert(acc.deep_view() =~= old_acc.push(h@));
        }
        let j2 = crate::json::ws_to(s, j);
        if j2 < s.len() && s[j2] == ',' {
            k = crate::json::ws_to(s, j2 + 1);
        } else if j2 < s.len() && s[j2] == ']' {
            return Ok((acc, j2 + 1));
        } else {
            return Err(j2);
        }
    }
}

} // verus!

verus! {

/// How a route's shape reads off its fields, for use inside the crate.
pub(crate) proof fn lemma_route_fields(r: &Route)
    ensures
        r@.id == r.id@,
        r@.path == r.path@,
        r@.method == r.method,
        r@.headers == r.headers.deep_view(),
        r@.responses == r.responses.deep_view(),
{
}

} // verus!

verus! {

/// A whole document holding one route, surrounded by nothing but
/// whitespace.
pub open spec fn route_document(s: Seq<char>) -> Option<RouteV> {
    let j = skip_ws(s, 0);
    match parse_route(s, j) {
        Option::None => None,
        Option::Some((v, j2)) => if j2 <= s.len() && skip_ws(s, j2) == s.len() {
            Some(v)
        } else {
            None
        },
    }
}

impl Route {
    /// Reads one route from a document, re-resolving the stored
    /// reference against the loaded responses.
    pub fn from_json_str(data: &str) -> (r: Result<Route, crate::errors::ConfigError>)
        ensures
            r matches Ok(v) ==> route_document(data@) == Some(v@) && v@.wf(),
            r is Err ==> route_document(data@) is None,
    {
        let s = crate::text::str_to_chars(data);
        let j = crate::json::ws_to(&s, 0);
        match parse_route_exec(&s, j) {
            Err(e) => Err(crate::errors::config_error_at(&s, e, "malformed route document")),
            Ok((v, j2)) => {
                let j3 = crate::json::ws_to(&s, j2);
                if j3 != s.len() {
                    return Err(
                        crate::errors::config_error_at(
                            &s,
                            j3,
                            "unexpected content after the route document",
                        ),
                    );
                }
                proof {
                    lemma_parse_route_wf(s@, j as int);
                }
                Ok(v)
            },
        }
    }
}

} // verus!
