//! One candidate reply for a route: status, body, type and headers, with
//! its document codec.

use vstd::prelude::*;

use crate::http::header::parse_headers;
use crate::http::header::parse_headers_exec;
use crate::http::header::ser_headers;
use crate::http::header::Header;
use crate::http::header::HeaderV;
use crate::http::response_type::rtype_of_tok;
use crate::http::response_type::rtype_tok;
use crate::http::response_type::ResponseType;
use crate::json::parse_bool;
use crate::json::parse_bool_exec;
use crate::json::parse_jstring;
use crate::json::parse_num;
use crate::json::ser_bool;
use crate::json::ser_nat;
use crate::json::ser_str_field;
use crate::json::ser_string;
use crate::json::skip_ws;
use crate::keys::key_active;
use crate::keys::key_headers;
use crate::keys::key_id;
use crate::keys::key_name;
use crate::keys::key_response;
use crate::keys::key_response_type;
use crate::keys::key_status;

verus! {

#[derive(Debug, PartialEq)]
pub struct Response {
    pub id: String,
    pub name: String,
    pub status: u16,
    pub(crate) response: String,
    pub response_type: ResponseType,
    pub active: bool,
    pub headers: Vec<Header>,
}

/// The mathematical shape of a `Response`.
pub struct ResponseV {
    pub id: Seq<char>,
    pub name: Seq<char>,
    pub status: u16,
    pub response: Seq<char>,
    pub response_type: ResponseType,
    pub active: bool,
    pub headers: Seq<HeaderV>,
}

impl View for Response {
    type V = ResponseV;

    closed spec fn view(&self) -> ResponseV {
        ResponseV {
            id: self.id@,
            name: self.name@,
            status: self.status,
            response: self.response@,
            response_type: self.response_type,
            active: self.active,
            headers: self.headers.deep_view(),
        }
    }
}

impl DeepView for Response {
    type V = ResponseV;

    open spec fn deep_view(&self) -> ResponseV {
        self@
    }
}

impl Clone for Response {
    fn clone(&self) -> (r: Self)
        ensures
            r@ == self@,
    {
        let r = Response {
            id: self.id.clone(),
            name: self.name.clone(),
            status: self.status,
            response: self.response.clone(),
            response_type: self.response_type,
            active: self.active,
            headers: clone_headers(&self.headers),
        };
        proof {
            assert(r@ == self@);
        }
        r
    }
}

/// A copy of a header list, element for element.
pub fn clone_headers(v: &Vec<Header>) -> (r: Vec<Header>)
    ensures
        r.deep_view() == v.deep_view(),
{
    let mut r: Vec<Header> = Vec::new();
    let n = v.len();
    let mut m: usize = 0;
    while m < n
        invariant
            n == v@.len(),
            m <= n,
            r.deep_view() =~= v.deep_view().take(m as int),
        decreases n - m,
    {
        proof {
            assert(r.deep_view().len() == r@.len());
            assert(v.deep_view().take(m as int).len() == m);
            assert(r@.len() == m);
        }
        let ghost prev = r@;
        let x = v[m].clone();
        let ghost xv = x.deep_view();
        proof {
            assert(xv == v@[m as int].deep_view());
        }
        r.push(x);
        m = m + 1;
        proof {
            assert(r@ == prev.push(x));
            assert(prev.len() == m - 1);
            assert(r@.len() == m);
            assert(r.deep_view().len() == m);
            assert forall|k2: int| 0 <= k2 < m implies r.deep_view()[k2] == v.deep_view().take(
                m as int,
            )[k2] by {
                assert(r.deep_view()[k2] == r@[k2].deep_view());
                assert(v.deep_view().take(m as int)[k2] == v@[k2].deep_view());
                if k2 < m - 1 {
                    assert(r@[k2] == prev[k2]);
                    assert(prev[k2].deep_view() == v.deep_view().take(m as int - 1)[k2]);
                } else {
                    assert(r@[k2] == x);
                    assert(r@[k2].deep_view() == xv);
                }
            }
            assert(r.deep_view() =~= v.deep_view().take(m as int));
        }
    }
    proof {
        assert(v.deep_view().take(n as int) =~= v.deep_view());
    }
    r
}

/// How a response's shape reads off its fields, for use inside the crate.
pub(crate) proof fn lemma_response_fields(r: &Response)
    ensures
        r@.id == r.id@,
        r@.name == r.name@,
        r@.status == r.status,
        r@.response == r.response@,
        r@.response_type == r.response_type,
        r@.active == r.active,
        r@.headers == r.headers.deep_view(),
{
}

impl Default for Response {
    /// A fresh active empty text response with status 200.
    fn default() -> (r: Self)
        ensures
            r@.name.len() == 0,
            r@.status == 200,
            r@.response.len() == 0,
            r@.response_type == ResponseType::Text,
            r@.active == true,
            r@.headers.len() == 0,
    {
        let r = Response {
            id: crate::ids::fresh_id(),
            name: String::new(),
            status: 200,
            response: String::new(),
            response_type: ResponseType::Text,
            active: true,
            headers: Vec::new(),
        };
        proof {
            assert(r@.headers =~= Seq::<HeaderV>::empty());
        }
        r
    }
}

impl Response {
    /// A fresh active response with the given name, status, type and body.
    pub fn new(name: &str, status: u16, response_type: ResponseType, body: &str) -> (r: Self)
        ensures
            r@.name == name@,
            r@.status == status,
            r@.response == body@,
            r@.response_type == response_type,
            r@.active == true,
            r@.headers.len() == 0,
    {
        let r = Response {
            id: crate::ids::fresh_id(),
            name: String::from_str(name),
            status,
            response_type,
            response: String::from_str(body),
            active: true,
            headers: Vec::new(),
        };
        proof {
            assert(r@.headers =~= Seq::<HeaderV>::empty());
        }
        r
    }

    /// The body this response answers with.
    pub fn get_response_body(&self) -> (r: String)
        ensures
            r@ == self@.response,
    {
        self.response.clone()
    }

    /// Adds a header to this response's own scope.
    pub fn add_header(&mut self, header: Header)
        ensures
            final(self)@ == (ResponseV { headers: old(self)@.headers.push(header@), ..old(self)@ }),
    {
        self.headers.push(header);
        proof {
            assert(final(self)@.headers =~= old(self)@.headers.push(header@));
        }
    }

    /// A response assembled field by field, used when reading a document.
    pub(crate) fn assemble(
        id: String,
        name: String,
        status: u16,
        response: String,
        response_type: ResponseType,
        active: bool,
        headers: Vec<Header>,
    ) -> (r: Self)
        ensures
            r@ == (ResponseV {
                id: id@,
                name: name@,
                status: status,
                response: response@,
                response_type: response_type,
                active: active,
                headers: headers.deep_view(),
            }),
    {
        Response { id, name, status, response, response_type, active, headers }
    }
}

// ---------------------------------------------------------------------------
// serialization
// ---------------------------------------------------------------------------
/// A response's form in the document; fields follow the declared order.
#[verifier::opaque]
pub open spec fn ser_response(r: ResponseV) -> Seq<char> {
    seq!['{'] + (ser_str_field(key_id(), r.id) + (seq![','] + (ser_str_field(key_name(), r.name)
        + (seq![','] + (ser_string(key_status()) + (seq![':'] + (ser_nat(r.status as nat) + (
    seq![','] + (ser_str_field(key_response(), r.response) + (seq![','] + (ser_str_field(
        key_response_type(),
        rtype_tok(r.response_type),
    ) + (seq![','] + (ser_string(key_active()) + (seq![':'] + (ser_bool(r.active) + (seq![','] + (
    ser_string(key_headers()) + (seq![':'] + (ser_headers(r.headers) + seq!['}'])))))))))))))))))))
}

/// Appends a response in document form.
#[verifier::rlimit(100)]
pub fn emit_response(out: &mut Vec<char>, r: &Response)
    ensures
        final(out)@ == old(out)@ + ser_response(r@),
{
    proof {
        reveal(ser_response);
        reveal_strlit("id");
        reveal_strlit("name");
        reveal_strlit("status");
        reveal_strlit("response");
        reveal_strlit("responseType");
        reveal_strlit("text");
        reveal_strlit("json");
        reveal_strlit("active");
        reveal_strlit("headers");
        assert("id"@ =~= key_id());
        assert("name"@ =~= key_name());
        assert("status"@ =~= key_status());
        assert("response"@ =~= key_response());
        assert("responseType"@ =~= key_response_type());
        assert("text"@ =~= rtype_tok(ResponseType::Text));
        assert("json"@ =~= rtype_tok(ResponseType::Json));
        assert("active"@ =~= key_active());
        assert("headers"@ =~= key_headers());
    }
    out.push('{');
    crate::json::emit_str_field(out, "id", self_str(&r.id));
    out.push(',');
    crate::json::emit_str_field(out, "name", self_str(&r.name));
    out.push(',');
    crate::json::emit_json_string(out, "status");
    out.push(':');
    crate::json::emit_u64(out, r.status as u64);
    out.push(',');
    crate::json::emit_str_field(out, "response", self_str(&r.response));
    out.push(',');
    let rt: &str = match r.response_type {
        ResponseType::Text => "text",
        ResponseType::Json => "json",
    };
    crate::json::emit_str_field(out, "responseType", rt);
    out.push(',');
    crate::json::emit_json_string(out, "active");
    out.push(':');
    crate::json::emit_bool(out, r.active);
    out.push(',');
    crate::json::emit_json_string(out, "headers");
    out.push(':');
    crate::http::header::emit_headers(out, &r.headers);
    out.push('}');
    proof {
        assert(final(out)@ =~= old(out)@ + ser_response(r@));
    }
}

/// A `String` as a slice, with its characters unchanged.
fn self_str(s: &String) -> (r: &str)
    ensures
        r@ == s@,
{
    s.as_str()
}

// ---------------------------------------------------------------------------
// parsing
// ---------------------------------------------------------------------------
/// Field values collected so far while reading a response object.
pub struct ResponseSlots {
    pub id: Option<Seq<char>>,
    pub name: Option<Seq<char>>,
    pub status: Option<u16>,
    pub response: Option<Seq<char>>,
    pub response_type: Option<ResponseType>,
    pub active: Option<bool>,
    pub headers: Option<Seq<HeaderV>>,
}

pub open spec fn response_slots_empty() -> ResponseSlots {
    ResponseSlots {
        id: None,
        name: None,
        status: None,
        response: None,
        response_type: None,
        active: None,
        headers: None,
    }
}

/// A complete response from filled slots; every field is required.
pub open spec fn finish_response(sl: ResponseSlots, j: int) -> Option<(ResponseV, int)> {
    if sl.id is Some && sl.name is Some && sl.status is Some && sl.response is Some
        && sl.response_type is Some && sl.active is Some && sl.headers is Some {
        Some(
            (
                ResponseV {
                    id: sl.id->Some_0,
                    name: sl.name->Some_0,
                    status: sl.status->Some_0,
                    response: sl.response->Some_0,
                    response_type: sl.response_type->Some_0,
                    active: sl.active->Some_0,
                    headers: sl.headers->Some_0,
                },
                j,
            ),
        )
    } else {
        None
    }
}

/// One `"key": value` pair of a response object, starting at the key's
/// opening quote; a repeated or unknown key is rejected.
pub open spec fn parse_response_one(s: Seq<char>, i: int, sl: ResponseSlots) -> Option<
    (ResponseSlots, int),
> {
    match parse_jstring(s, i) {
        Option::None => None,
        Option::Some((k, j)) => {
            let j2 = skip_ws(s, j);
            if !(j2 < s.len() && s[j2] == ':') {
                None
            } else {
                let j3 = skip_ws(s, j2 + 1);
                if k == key_id() {
                    if sl.id is Some {
                        None
                    } else {
                        match parse_jstring(s, j3) {
                            Option::None => None,
                            Option::Some((v, j4)) => Some(
                                (ResponseSlots { id: Some(v), ..sl }, j4),
                            ),
                        }
                    }
                } else if k == key_name() {
                    if sl.name is Some {
                        None
                    } else {
                        match parse_jstring(s, j3) {
                            Option::None => None,
                            Option::Some((v, j4)) => Some(
                                (ResponseSlots { name: Some(v), ..sl }, j4),
                            ),
                        }
                    }
                } else if k == key_status() {
                    if sl.status is Some {
                        None
                    } else {
                        match parse_num(s, j3) {
                            Option::None => None,
                            Option::Some((n, j4)) => Some(
                                (ResponseSlots { status: Some(n as u16), ..sl }, j4),
                            ),
                        }
                    }
                } else if k == key_response() {
                    if sl.response is Some {
                        None
                    } else {
                        match parse_jstring(s, j3) {
                            Option::None => None,
                            Option::Some((v, j4)) => Some(
                                (ResponseSlots { response: Some(v), ..sl }, j4),
                            ),
                        }
                    }
                } else if k == key_response_type() {
                    if sl.response_type is Some {
                        None
                    } else {
                        match parse_jstring(s, j3) {
                            Option::None => None,
                            Option::Some((v, j4)) => match rtype_of_tok(v) {
                                Option::None => None,
                                Option::Some(rt) => Some(
                                    (ResponseSlots { response_type: Some(rt), ..sl }, j4),
                                ),
                            },
                        }
                    }
                } else if k == key_active() {
                    if sl.active is Some {
                        None
                    } else {
                        match parse_bool(s, j3) {
                            Option::None => None,
                            Option::Some((b, j4)) => Some(
                                (ResponseSlots { active: Some(b), ..sl }, j4),
                            ),
                        }
                    }
                } else if k == key_headers() {
                    if sl.headers is Some {
                        None
                    } else {
                        match parse_headers(s, j3) {
                            Option::None => None,
                            Option::Some((hs, j4)) => Some(
                                (ResponseSlots { headers: Some(hs), ..sl }, j4),
                            ),
                        }
                    }
                } else {
                    None
                }
            }
        },
    }
}

/// The fields of a response object, in any order, each at most once.
pub open spec fn parse_response_fields(
    s: Seq<char>,
    i: int,
    sl: ResponseSlots,
    fuel: nat,
) -> Option<(ResponseV, int)>
    decreases fuel,
{
    if fuel == 0 {
        None
    } else {
        match parse_response_one(s, i, sl) {
            Option::None => None,
            Option::Some((sl2, j)) => {
                let j2 = skip_ws(s, j);
                if j2 < s.len() && s[j2] == ',' {
                    parse_response_fields(s, skip_ws(s, j2 + 1), sl2, (fuel - 1) as nat)
                } else if j2 < s.len() && s[j2] == '}' {
                    finish_response(sl2, j2 + 1)
                } else {
                    None
                }
            },
        }
    }
}

/// A response object starting exactly at `i`.
pub open spec fn parse_response(s: Seq<char>, i: int) -> Option<(ResponseV, int)> {
    if 0 <= i && i < s.len() && s[i] == '{' {
        let j = skip_ws(s, i + 1);
        if j < s.len() && s[j] == '}' {
            finish_response(response_slots_empty(), j + 1)
        } else {
            parse_response_fields(s, j, response_slots_empty(), 8)
        }
    } else {
        None
    }
}

pub proof fn lemma_response_one_progress(s: Seq<char>, i: int, sl: ResponseSlots)
    requires
        parse_response_one(s, i, sl) is Some,
    ensures
        i < parse_response_one(s, i, sl)->Some_0.1 <= s.len(),
{
    crate::json::lemma_jstring_progress(s, i);
    let (k, j) = parse_jstring(s, i)->Some_0;
    crate::json::lemma_skip_ws_bounds(s, j);
    let j2 = skip_ws(s, j);
    crate::json::lemma_skip_ws_bounds(s, j2 + 1);
    let j3 = skip_ws(s, j2 + 1);
    if parse_jstring(s, j3) is Some {
        crate::json::lemma_jstring_progress(s, j3);
    }
    if parse_num(s, j3) is Some {
        crate::json::lemma_num_progress(s, j3);
    }
    if parse_headers(s, j3) is Some {
        crate::http::header::lemma_headers_progress(s, j3);
    }
}

pub proof fn lemma_response_fields_progress(s: Seq<char>, i: int, sl: ResponseSlots, fuel: nat)
    requires
        parse_response_fields(s, i, sl, fuel) is Some,
    ensures
        i < parse_response_fields(s, i, sl, fuel)->Some_0.1 <= s.len(),
    decreases fuel,
{
    let (sl2, j) = parse_response_one(s, i, sl)->Some_0;
    lemma_response_one_progress(s, i, sl);
    crate::json::lemma_skip_ws_bounds(s, j);
    let j2 = skip_ws(s, j);
    if j2 < s.len() && s[j2] == ',' {
        crate::json::lemma_skip_ws_bounds(s, j2 + 1);
        lemma_response_fields_progress(s, skip_ws(s, j2 + 1), sl2, (fuel - 1) as nat);
    }
}

pub proof fn lemma_response_progress(s: Seq<char>, i: int)
    requires
        parse_response(s, i) is Some,
    ensures
        i < parse_response(s, i)->Some_0.1 <= s.len(),
{
    crate::json::lemma_skip_ws_bounds(s, i + 1);
    let j = skip_ws(s, i + 1);
    if j < s.len() && s[j] == '}' {
    } else {
        lemma_response_fields_progress(s, j, response_slots_empty(), 8);
    }
}

} // verus!

verus! {

// ---------------------------------------------------------------------------
// round trip
// ---------------------------------------------------------------------------
// Positions of the pieces of a serialized response, relative to its start.
pub open spec fn rsp_p1(i: int) -> int {
    i + 1
}

pub open spec fn rsp_q1(i: int, r: ResponseV) -> int {
    rsp_p1(i) + ser_str_field(key_id(), r.id).len()
}

pub open spec fn rsp_p2(i: int, r: ResponseV) -> int {
    rsp_q1(i, r) + 1
}

pub open spec fn rsp_q2(i: int, r: ResponseV) -> int {
    rsp_p2(i, r) + ser_str_field(key_name(), r.name).len()
}

pub open spec fn rsp_p3(i: int, r: ResponseV) -> int {
    rsp_q2(i, r) + 1
}

pub open spec fn rsp_c3(i: int, r: ResponseV) -> int {
    rsp_p3(i, r) + ser_string(key_status()).len()
}

pub open spec fn rsp_v3(i: int, r: ResponseV) -> int {
    rsp_c3(i, r) + 1
}

pub open spec fn rsp_q3(i: int, r: ResponseV) -> int {
    rsp_v3(i, r) + ser_nat(r.status as nat).len()
}

pub open spec fn rsp_p4(i: int, r: ResponseV) -> int {
    rsp_q3(i, r) + 1
}

pub open spec fn rsp_q4(i: int, r: ResponseV) -> int {
    rsp_p4(i, r) + ser_str_field(key_response(), r.response).len()
}

pub open spec fn rsp_p5(i: int, r: ResponseV) -> int {
    rsp_q4(i, r) + 1
}

pub open spec fn rsp_q5(i: int, r: ResponseV) -> int {
    rsp_p5(i, r) + ser_str_field(key_response_type(), rtype_tok(r.response_type)).len()
}

pub open spec fn rsp_p6(i: int, r: ResponseV) -> int {
    rsp_q5(i, r) + 1
}

pub open spec fn rsp_c6(i: int, r: ResponseV) -> int {
    rsp_p6(i, r) + ser_string(key_active()).len()
}

pub open spec fn rsp_v6(i: int, r: ResponseV) -> int {
    rsp_c6(i, r) + 1
}

pub open spec fn rsp_q6(i: int, r: ResponseV) -> int {
    rsp_v6(i, r) + ser_bool(r.active).len()
}

pub open spec fn rsp_p7(i: int, r: ResponseV) -> int {
    rsp_q6(i, r) + 1
}

pub open spec fn rsp_c7(i: int, r: ResponseV) -> int {
    rsp_p7(i, r) + ser_string(key_headers()).len()
}

pub open spec fn rsp_v7(i: int, r: ResponseV) -> int {
    rsp_c7(i, r) + 1
}

pub open spec fn rsp_q7(i: int, r: ResponseV) -> int {
    rsp_v7(i, r) + ser_headers(r.headers).len()
}

/// What each token parser returns at each piece of a serialized response.
pub open spec fn response_pieces_ok(s: Seq<char>, i: int, r: ResponseV) -> bool {
    &&& 0 <= i
    &&& rsp_q7(i, r) + 1 <= s.len()
    &&& s[i] == '{'
    &&& s[rsp_p1(i)] == '"'
    &&& parse_jstring(s, rsp_p1(i)) == Some((key_id(), rsp_p1(i) + ser_string(key_id()).len()))
    &&& s[rsp_p1(i) + ser_string(key_id()).len()] == ':'
    &&& parse_jstring(s, rsp_p1(i) + ser_string(key_id()).len() + 1) == Some((r.id, rsp_q1(i, r)))
    &&& s[rsp_p1(i) + ser_string(key_id()).len() + 1] == '"'
    &&& s[rsp_q1(i, r)] == ','
    &&& s[rsp_p2(i, r)] == '"'
    &&& parse_jstring(s, rsp_p2(i, r)) == Some(
        (key_name(), rsp_p2(i, r) + ser_string(key_name()).len()),
    )
    &&& s[rsp_p2(i, r) + ser_string(key_name()).len()] == ':'
    &&& parse_jstring(s, rsp_p2(i, r) + ser_string(key_name()).len() + 1) == Some(
        (r.name, rsp_q2(i, r)),
    )
    &&& s[rsp_p2(i, r) + ser_string(key_name()).len() + 1] == '"'
    &&& s[rsp_q2(i, r)] == ','
    &&& s[rsp_p3(i, r)] == '"'
    &&& parse_jstring(s, rsp_p3(i, r)) == Some((key_status(), rsp_c3(i, r)))
    &&& s[rsp_c3(i, r)] == ':'
    &&& s[rsp_v3(i, r)] == ser_nat(r.status as nat)[0]
    &&& crate::json::parse_num(s, rsp_v3(i, r)) == Some((r.status as nat, rsp_q3(i, r)))
    &&& s[rsp_q3(i, r)] == ','
    &&& s[rsp_p4(i, r)] == '"'
    &&& parse_jstring(s, rsp_p4(i, r)) == Some(
        (key_response(), rsp_p4(i, r) + ser_string(key_response()).len()),
    )
    &&& s[rsp_p4(i, r) + ser_string(key_response()).len()] == ':'
    &&& parse_jstring(s, rsp_p4(i, r) + ser_string(key_response()).len() + 1) == Some(
        (r.response, rsp_q4(i, r)),
    )
    &&& s[rsp_p4(i, r) + ser_string(key_response()).len() + 1] == '"'
    &&& s[rsp_q4(i, r)] == ','
    &&& s[rsp_p5(i, r)] == '"'
    &&& parse_jstring(s, rsp_p5(i, r)) == Some(
        (key_response_type(), rsp_p5(i, r) + ser_string(key_response_type()).len()),
    )
    &&& s[rsp_p5(i, r) + ser_string(key_response_type()).len()] == ':'
    &&& parse_jstring(s, rsp_p5(i, r) + ser_string(key_response_type()).len() + 1) == Some(
        (rtype_tok(r.response_type), rsp_q5(i, r)),
    )
    &&& s[rsp_p5(i, r) + ser_string(key_response_type()).len() + 1] == '"'
    &&& s[rsp_q5(i, r)] == ','
    &&& s[rsp_p6(i, r)] == '"'
    &&& parse_jstring(s, rsp_p6(i, r)) == Some((key_active(), rsp_c6(i, r)))
    &&& s[rsp_c6(i, r)] == ':'
    &&& !crate::text::is_ws(s[rsp_v6(i, r)])
    &&& parse_bool(s, rsp_v6(i, r)) == Some((r.active, rsp_q6(i, r)))
    &&& s[rsp_q6(i, r)] == ','
    &&& s[rsp_p7(i, r)] == '"'
    &&& parse_jstring(s, rsp_p7(i, r)) == Some((key_headers(), rsp_c7(i, r)))
    &&& s[rsp_c7(i, r)] == ':'
    &&& s[rsp_v7(i, r)] == '['
    &&& parse_headers(s, rsp_v7(i, r)) == Some((r.headers, rsp_q7(i, r)))
    &&& s[rsp_q7(i, r)] == '}'
}

/// Locates every piece of a serialized response and runs the token
/// parsers on them.
#[verifier::rlimit(100)]
pub proof fn lemma_response_pieces(s: Seq<char>, i: int, r: ResponseV)
    requires
        0 <= i,
        i + ser_response(r).len() <= s.len(),
        s.subrange(i, i + ser_response(r).len()) == ser_response(r),
    ensures
        response_pieces_ok(s, i, r),
        rsp_q7(i, r) + 1 == i + ser_response(r).len(),
{
    reveal(ser_response);
    let f1 = ser_str_field(key_id(), r.id);
    let f2 = ser_str_field(key_name(), r.name);
    let k3 = ser_string(key_status());
    let n3 = ser_nat(r.status as nat);
    let f4 = ser_str_field(key_response(), r.response);
    let f5 = ser_str_field(key_response_type(), rtype_tok(r.response_type));
    let k6 = ser_string(key_active());
    let b6 = ser_bool(r.active);
    let k7 = ser_string(key_headers());
    let h7 = ser_headers(r.headers);
    let r1 = f1 + (seq![','] + (f2 + (seq![','] + (k3 + (seq![':'] + (n3 + (seq![','] + (f4 + (
    seq![','] + (f5 + (seq![','] + (k6 + (seq![':'] + (b6 + (seq![','] + (k7 + (seq![':'] + (h7
        + seq!['}']))))))))))))))))));
    crate::json::lemma_concat_subrange(s, i, seq!['{'], r1);
    assert(s[i] == s.subrange(i, i + 1)[0]);
    let p1 = i + 1;
    let r2 = seq![','] + (f2 + (seq![','] + (k3 + (seq![':'] + (n3 + (seq![','] + (f4 + (seq![',']
        + (f5 + (seq![','] + (k6 + (seq![':'] + (b6 + (seq![','] + (k7 + (seq![':'] + (h7
        + seq!['}'])))))))))))))))));
    crate::json::lemma_concat_subrange(s, p1, f1, r2);
    crate::json::lemma_step_str_field(s, p1, key_id(), r.id);
    let q1 = p1 + f1.len();
    let r3 = f2 + (seq![','] + (k3 + (seq![':'] + (n3 + (seq![','] + (f4 + (seq![','] + (f5 + (
    seq![','] + (k6 + (seq![':'] + (b6 + (seq![','] + (k7 + (seq![':'] + (h7
        + seq!['}']))))))))))))))));
    crate::json::lemma_concat_subrange(s, q1, seq![','], r3);
    assert(s[q1] == s.subrange(q1, q1 + 1)[0]);
    let p2 = q1 + 1;
    let r4 = seq![','] + (k3 + (seq![':'] + (n3 + (seq![','] + (f4 + (seq![','] + (f5 + (seq![',']
        + (k6 + (seq![':'] + (b6 + (seq![','] + (k7 + (seq![':'] + (h7 + seq!['}'])))))))))))))));
    crate::json::lemma_concat_subrange(s, p2, f2, r4);
    crate::json::lemma_step_str_field(s, p2, key_name(), r.name);
    let q2 = p2 + f2.len();
    let r5 = k3 + (seq![':'] + (n3 + (seq![','] + (f4 + (seq![','] + (f5 + (seq![','] + (k6 + (
    seq![':'] + (b6 + (seq![','] + (k7 + (seq![':'] + (h7 + seq!['}']))))))))))))));
    crate::json::lemma_concat_subrange(s, q2, seq![','], r5);
    assert(s[q2] == s.subrange(q2, q2 + 1)[0]);
    let p3 = q2 + 1;
    let r6 = seq![':'] + (n3 + (seq![','] + (f4 + (seq![','] + (f5 + (seq![','] + (k6 + (seq![':']
        + (b6 + (seq![','] + (k7 + (seq![':'] + (h7 + seq!['}'])))))))))))));
    crate::json::lemma_concat_subrange(s, p3, k3, r6);
    crate::json::lemma_parse_ser_string(s, p3, key_status());
    assert(s[p3] == s.subrange(p3, p3 + k3.len())[0]);
    let c3 = p3 + k3.len();
    let r7 = n3 + (seq![','] + (f4 + (seq![','] + (f5 + (seq![','] + (k6 + (seq![':'] + (b6 + (
    seq![','] + (k7 + (seq![':'] + (h7 + seq!['}'])))))))))))) ;
    crate::json::lemma_concat_subrange(s, c3, seq![':'], r7);
    assert(s[c3] == s.subrange(c3, c3 + 1)[0]);
    let v3 = c3 + 1;
    let r8 = seq![','] + (f4 + (seq![','] + (f5 + (seq![','] + (k6 + (seq![':'] + (b6 + (seq![',']
        + (k7 + (seq![':'] + (h7 + seq!['}'])))))))))));
    crate::json::lemma_concat_subrange(s, v3, n3, r8);
    crate::json::lemma_ser_nat_digits(r.status as nat);
    let q3 = v3 + n3.len();
    let r9 = f4 + (seq![','] + (f5 + (seq![','] + (k6 + (seq![':'] + (b6 + (seq![','] + (k7 + (
    seq![':'] + (h7 + seq!['}']))))))))));
    crate::json::lemma_concat_subrange(s, q3, seq![','], r9);
    assert(s[q3] == s.subrange(q3, q3 + 1)[0]);
    assert(!crate::text::is_digit(s[q3]));
    crate::json::lemma_parse_ser_num(s, v3, r.status as nat);
    assert(s[v3] == s.subrange(v3, v3 + n3.len())[0]);
    let p4 = q3 + 1;
    let r10 = seq![','] + (f5 + (seq![','] + (k6 + (seq![':'] + (b6 + (seq![','] + (k7 + (seq![':']
        + (h7 + seq!['}'])))))))));
    crate::json::lemma_concat_subrange(s, p4, f4, r10);
    crate::json::lemma_step_str_field(s, p4, key_response(), r.response);
    let q4 = p4 + f4.len();
    let r11 = f5 + (seq![','] + (k6 + (seq![':'] + (b6 + (seq![','] + (k7 + (seq![':'] + (h7
        + seq!['}']))))))));
    crate::json::lemma_concat_subrange(s, q4, seq![','], r11);
    assert(s[q4] == s.subrange(q4, q4 + 1)[0]);
    let p5 = q4 + 1;
    let r12 = seq![','] + (k6 + (seq![':'] + (b6 + (seq![','] + (k7 + (seq![':'] + (h7
        + seq!['}'])))))));
    crate::json::lemma_concat_subrange(s, p5, f5, r12);
    crate::json::lemma_step_str_field(s, p5, key_response_type(), rtype_tok(r.response_type));
    let q5 = p5 + f5.len();
    let r13 = k6 + (seq![':'] + (b6 + (seq![','] + (k7 + (seq![':'] + (h7 + seq!['}']))))));
    crate::json::lemma_concat_subrange(s, q5, seq![','], r13);
    assert(s[q5] == s.subrange(q5, q5 + 1)[0]);
    let p6 = q5 + 1;
    let r14 = seq![':'] + (b6 + (seq![','] + (k7 + (seq![':'] + (h7 + seq!['}'])))));
    crate::json::lemma_concat_subrange(s, p6, k6, r14);
    crate::json::lemma_parse_ser_string(s, p6, key_active());
    assert(s[p6] == s.subrange(p6, p6 + k6.len())[0]);
    let c6 = p6 + k6.len();
    let r15 = b6 + (seq![','] + (k7 + (seq![':'] + (h7 + seq!['}']))));
    crate::json::lemma_concat_subrange(s, c6, seq![':'], r15);
    assert(s[c6] == s.subrange(c6, c6 + 1)[0]);
    let v6 = c6 + 1;
    let r16 = seq![','] + (k7 + (seq![':'] + (h7 + seq!['}'])));
    crate::json::lemma_concat_subrange(s, v6, b6, r16);
    assert(s[v6] == s.subrange(v6, v6 + b6.len())[0]);
    assert(crate::json::parse_lit(s, v6, b6) == Some(v6 + b6.len()));
    if r.active {
        assert(parse_bool(s, v6) == Some((true, v6 + 4)));
    } else {
        assert(crate::json::parse_lit(s, v6, crate::json::tok_true()) is None) by {
            if crate::json::parse_lit(s, v6, crate::json::tok_true()) is Some {
                assert(s.subrange(v6, v6 + 4)[0] == crate::json::tok_true()[0]);
            }
        }
        assert(parse_bool(s, v6) == Some((false, v6 + 5)));
    }
    let q6 = v6 + b6.len();
    let r17 = k7 + (seq![':'] + (h7 + seq!['}']));
    crate::json::lemma_concat_subrange(s, q6, seq![','], r17);
    assert(s[q6] == s.subrange(q6, q6 + 1)[0]);
    let p7 = q6 + 1;
    let r18 = seq![':'] + (h7 + seq!['}']);
    crate::json::lemma_concat_subrange(s, p7, k7, r18);
    crate::json::lemma_parse_ser_string(s, p7, key_headers());
    assert(s[p7] == s.subrange(p7, p7 + k7.len())[0]);
    let c7 = p7 + k7.len();
    let r19 = h7 + seq!['}'];
    crate::json::lemma_concat_subrange(s, c7, seq![':'], r19);
    assert(s[c7] == s.subrange(c7, c7 + 1)[0]);
    let v7 = c7 + 1;
    crate::json::lemma_concat_subrange(s, v7, h7, seq!['}']);
    crate::http::header::lemma_parse_ser_headers(s, v7, r.headers);
    assert(s[v7] == s.subrange(v7, v7 + h7.len())[0]);
    let q7 = v7 + h7.len();
    assert(s[q7] == s.subrange(q7, q7 + 1)[0]);
}

} // verus!

verus! {

/// The response parser inverts the response serializer.
#[verifier::rlimit(100)]
pub proof fn lemma_parse_ser_response(s: Seq<char>, i: int, r: ResponseV)
    requires
        0 <= i,
        i + ser_response(r).len() <= s.len(),
        s.subrange(i, i + ser_response(r).len()) == ser_response(r),
    ensures
        parse_response(s, i) == Some((r, i + ser_response(r).len())),
{
    lemma_response_pieces(s, i, r);
    assert(key_id().len() == 2);
    assert(key_name().len() == 4);
    assert(key_status().len() == 6);
    assert(key_response().len() == 8);
    assert(key_response_type().len() == 12);
    assert(key_active().len() == 6);
    assert(key_headers().len() == 7);
    assert(key_active()[0] == 'a');
    assert(key_status()[0] == 's');
    assert(key_active() != key_status());
    let p1 = rsp_p1(i);
    let q1 = rsp_q1(i, r);
    let p2 = rsp_p2(i, r);
    let q2 = rsp_q2(i, r);
    let p3 = rsp_p3(i, r);
    let c3 = rsp_c3(i, r);
    let v3 = rsp_v3(i, r);
    let q3 = rsp_q3(i, r);
    let p4 = rsp_p4(i, r);
    let q4 = rsp_q4(i, r);
    let p5 = rsp_p5(i, r);
    let q5 = rsp_q5(i, r);
    let p6 = rsp_p6(i, r);
    let c6 = rsp_c6(i, r);
    let v6 = rsp_v6(i, r);
    let q6 = rsp_q6(i, r);
    let p7 = rsp_p7(i, r);
    let c7 = rsp_c7(i, r);
    let v7 = rsp_v7(i, r);
    let q7 = rsp_q7(i, r);
    crate::json::lemma_ser_nat_digits(r.status as nat);
    let sl0 = response_slots_empty();
    let sl1 = ResponseSlots { id: Some(r.id), ..sl0 };
    let sl2 = ResponseSlots { name: Some(r.name), ..sl1 };
    let sl3 = ResponseSlots { status: Some(r.status), ..sl2 };
    let sl4 = ResponseSlots { response: Some(r.response), ..sl3 };
    let sl5 = ResponseSlots { response_type: Some(r.response_type), ..sl4 };
    let sl6 = ResponseSlots { active: Some(r.active), ..sl5 };
    let sl7 = ResponseSlots { headers: Some(r.headers), ..sl6 };
    assert(skip_ws(s, p1) == p1);
    assert(skip_ws(s, p1 + ser_string(key_id()).len()) == p1 + ser_string(key_id()).len());
    assert(skip_ws(s, p1 + ser_string(key_id()).len() + 1) == p1 + ser_string(key_id()).len() + 1);
    assert(parse_response_one(s, p1, sl0) == Some((sl1, q1)));
    assert(skip_ws(s, q1) == q1);
    assert(skip_ws(s, p2) == p2);
    assert(skip_ws(s, p2 + ser_string(key_name()).len()) == p2 + ser_string(key_name()).len());
    assert(skip_ws(s, p2 + ser_string(key_name()).len() + 1) == p2 + ser_string(key_name()).len()
        + 1);
    assert(parse_response_one(s, p2, sl1) == Some((sl2, q2)));
    assert(skip_ws(s, q2) == q2);
    assert(skip_ws(s, p3) == p3);
    assert(skip_ws(s, c3) == c3);
    assert(crate::text::is_digit(s[v3]));
    assert(skip_ws(s, v3) == v3);
    assert((r.status as nat) as u16 == r.status);
    assert(parse_response_one(s, p3, sl2) == Some((sl3, q3)));
    assert(skip_ws(s, q3) == q3);
    assert(skip_ws(s, p4) == p4);
    assert(skip_ws(s, p4 + ser_string(key_response()).len()) == p4 + ser_string(
        key_response(),
    ).len());
    assert(skip_ws(s, p4 + ser_string(key_response()).len() + 1) == p4 + ser_string(
        key_response(),
    ).len() + 1);
    assert(parse_response_one(s, p4, sl3) == Some((sl4, q4)));
    assert(skip_ws(s, q4) == q4);
    assert(skip_ws(s, p5) == p5);
    assert(skip_ws(s, p5 + ser_string(key_response_type()).len()) == p5 + ser_string(
        key_response_type(),
    ).len());
    assert(skip_ws(s, p5 + ser_string(key_response_type()).len() + 1) == p5 + ser_string(
        key_response_type(),
    ).len() + 1);
    crate::http::response_type::lemma_rtype_tok_round_trip(r.response_type);
    assert(parse_response_one(s, p5, sl4) == Some((sl5, q5)));
    assert(skip_ws(s, q5) == q5);
    assert(skip_ws(s, p6) == p6);
    assert(skip_ws(s, c6) == c6);
    assert(skip_ws(s, v6) == v6);
    assert(parse_response_one(s, p6, sl5) == Some((sl6, q6)));
    assert(skip_ws(s, q6) == q6);
    assert(skip_ws(s, p7) == p7);
    assert(skip_ws(s, c7) == c7);
    assert(skip_ws(s, v7) == v7);
    assert(parse_response_one(s, p7, sl6) == Some((sl7, q7)));
    assert(skip_ws(s, q7) == q7);
    assert(parse_response_fields(s, p7, sl6, 2) == finish_response(sl7, q7 + 1));
    assert(finish_response(sl7, q7 + 1) == Some((r, q7 + 1)));
    assert(parse_response_fields(s, p6, sl5, 3) == parse_response_fields(s, p7, sl6, 2));
    assert(parse_response_fields(s, p5, sl4, 4) == parse_response_fields(s, p6, sl5, 3));
    assert(parse_response_fields(s, p4, sl3, 5) == parse_response_fields(s, p5, sl4, 4));
    assert(parse_response_fields(s, p3, sl2, 6) == parse_response_fields(s, p4, sl3, 5));
    assert(parse_response_fields(s, p2, sl1, 7) == parse_response_fields(s, p3, sl2, 6));
    assert(parse_response_fields(s, p1, sl0, 8) == parse_response_fields(s, p2, sl1, 7));
    assert(q7 + 1 == i + ser_response(r).len());
    assert(s[i] == '{');
    assert(skip_ws(s, i + 1) == p1);
    assert(parse_response(s, i) == parse_response_fields(s, p1, sl0, 8));
}

} // verus!

verus! {

// ---------------------------------------------------------------------------
// executable parser
// ---------------------------------------------------------------------------
pub open spec fn slot_view(o: Option<String>) -> Option<Seq<char>> {
    match o {
        Option::Some(x) => Some(x@),
        Option::None => None,
    }
}

pub open spec fn slot_view_headers(o: Option<Vec<Header>>) -> Option<Seq<HeaderV>> {
    match o {
        Option::Some(x) => Some(x.deep_view()),
        Option::None => None,
    }
}

/// Reads a response object starting exactly at `i`; on failure reports the
/// position where parsing stopped.
pub fn parse_response_exec(s: &Vec<char>, i: usize) -> (r: Result<(Response, usize), usize>)
    requires
        i <= s@.len(),
    ensures
        r matches Ok(p) ==> parse_response(s@, i as int) == Some((p.0@, p.1 as int)) && i < p.1
            <= s@.len(),
        r is Err ==> parse_response(s@, i as int) is None,
{
    if i == s.len() || s[i] != '{' {
        return Err(i);
    }
    let mut k: usize = crate::json::ws_to(s, i + 1);
    if k < s.len() && s[k] == '}' {
        return Err(k);
    }
    let mut id: Option<String> = None;
    let mut name: Option<String> = None;
    let mut status: Option<u16> = None;
    let mut response: Option<String> = None;
    let mut response_type: Option<ResponseType> = None;
    let mut active: Option<bool> = None;
    let mut headers: Option<Vec<Header>> = None;
    let mut fuel: u8 = 8;
    loop
        invariant
            i < k <= s@.len(),
            parse_response(s@, i as int) == parse_response_fields(
                s@,
                k as int,
                (ResponseSlots {
                    id: slot_view(id),
                    name: slot_view(name),
                    status: status,
                    response: slot_view(response),
                    response_type: response_type,
                    active: active,
                    headers: slot_view_headers(headers),
                }),
                fuel as nat,
            ),
        decreases fuel,
    {
        proof {
            reveal_strlit("id");
            reveal_strlit("name");
            reveal_strlit("status");
            reveal_strlit("response");
            reveal_strlit("responseType");
            reveal_strlit("active");
            reveal_strlit("headers");
            assert("id"@ =~= key_id());
            assert("name"@ =~= key_name());
            assert("status"@ =~= key_status());
            assert("response"@ =~= key_response());
            assert("responseType"@ =~= key_response_type());
            assert("active"@ =~= key_active());
            assert("headers"@ =~= key_headers());
        }
        if fuel == 0 {
            return Err(k);
        }
        let (kt, j) = match crate::json::parse_string_exec(s, k) {
            Ok(p) => p,
            Err(e) => {
                return Err(e);
            },
        };
        let j2 = crate::json::ws_to(s, j);
        if !(j2 < s.len() && s[j2] == ':') {
            return Err(j2);
        }
        let j3 = crate::json::ws_to(s, j2 + 1);
        let jnext: usize;
        if crate::text::chars_eq_str(&kt, "id") {
            if id.is_some() {
                return Err(j3);
            }
            let (v, j4) = match crate::json::parse_string_exec(s, j3) {
                Ok(p) => p,
                Err(e) => {
                    return Err(e);
                },
            };
            id = Some(crate::text::chars_to_string(&v));
            jnext = j4;
        } else if crate::text::chars_eq_str(&kt, "name") {
            if name.is_some() {
                return Err(j3);
            }
            let (v, j4) = match crate::json::parse_string_exec(s, j3) {
                Ok(p) => p,
                Err(e) => {
                    return Err(e);
                },
            };
            name = Some(crate::text::chars_to_string(&v));
            jnext = j4;
        } else if crate::text::chars_eq_str(&kt, "status") {
            if status.is_some() {
                return Err(j3);
            }
            let (v, j4) = match crate::json::parse_u16_exec(s, j3) {
                Ok(p) => p,
                Err(e) => {
                    return Err(e);
                },
            };
            status = Some(v);
            jnext = j4;
        } else if crate::text::chars_eq_str(&kt, "response") {
            if response.is_some() {
                return Err(j3);
            }
            let (v, j4) = match crate::json::parse_string_exec(s, j3) {
                Ok(p) => p,
                Err(e) => {
                    return Err(e);
                },
            };
            response = Some(crate::text::chars_to_string(&v));
            jnext = j4;
        } else if crate::text::chars_eq_str(&kt, "responseType") {
            if response_type.is_some() {
                return Err(j3);
            }
            let (v, j4) = match crate::json::parse_string_exec(s, j3) {
                Ok(p) => p,
                Err(e) => {
                    return Err(e);
                },
            };
            let rt = match ResponseType::from_chars(&v) {
                Some(rt) => rt,
                None => {
                    return Err(j3);
                },
            };
            response_type = Some(rt);
            jnext = j4;
        } else if crate::text::chars_eq_str(&kt, "active") {
            if active.is_some() {
                return Err(j3);
            }
            let (v, j4) = match crate::json::parse_bool_exec(s, j3) {
                Ok(p) => p,
                Err(e) => {
                    return Err(e);
                },
            };
            active = Some(v);
            jnext = j4;
        } else if crate::text::chars_eq_str(&kt, "headers") {
            if headers.is_some() {
                return Err(j3);
            }
            let (v, j4) = match parse_headers_exec(s, j3) {
                Ok(p) => p,
                Err(e) => {
                    return Err(e);
                },
            };
            headers = Some(v);
            jnext = j4;
        } else {
            return Err(k);
        }
        let j5 = crate::json::ws_to(s, jnext);
        if j5 < s.len() && s[j5] == ',' {
            k = crate::json::ws_to(s, j5 + 1);
            fuel = fuel - 1;
        } else if j5 < s.len() && s[j5] == '}' {
            match (id, name, status, response, response_type, active, headers) {
                (Some(a), Some(b), Some(c), Some(d), Some(e), Some(f), Some(g)) => {
                    let resp = Response::assemble(a, b, c, d, e, f, g);
                    return Ok((resp, j5 + 1));
                },
                _ => {
                    return Err(j5);
                },
            }
        } else {
            return Err(j5);
        }
    }
}

// ---------------------------------------------------------------------------
// lists of responses
// ---------------------------------------------------------------------------
/// The items of a response list, separated by commas.
pub open spec fn ser_response_items(rs: Seq<ResponseV>) -> Seq<char>
    decreases rs.len(),
{
    if rs.len() == 0 {
        Seq::empty()
    } else if rs.len() == 1 {
        ser_response(rs[0])
    } else {
        ser_response(rs[0]) + (seq![','] + ser_response_items(rs.drop_first()))
    }
}

/// A response list's form in the document.
pub open spec fn ser_responses(rs: Seq<ResponseV>) -> Seq<char> {
    seq!['['] + (ser_response_items(rs) + seq![']'])
}

/// One or more comma-separated responses followed by the closing bracket.
pub open spec fn parse_response_items(s: Seq<char>, i: int, acc: Seq<ResponseV>) -> Option<
    (Seq<ResponseV>, int),
>
    decreases s.len() - i,
    via check_parse_response_items
{
    match parse_response(s, i) {
        Option::None => None,
        Option::Some((h, j)) => {
            let j2 = skip_ws(s, j);
            if j2 < s.len() && s[j2] == ',' {
                parse_response_items(s, skip_ws(s, j2 + 1), acc.push(h))
            } else if j2 < s.len() && s[j2] == ']' {
                Some((acc.push(h), j2 + 1))
            } else {
                None
            }
        },
    }
}

#[via_fn]
proof fn check_parse_response_items(s: Seq<char>, i: int, acc: Seq<ResponseV>) {
    if parse_response(s, i) is Some {
        lemma_response_progress(s, i);
        let j = parse_response(s, i)->Some_0.1;
        crate::json::lemma_skip_ws_bounds(s, j);
        let j2 = skip_ws(s, j);
        if j2 < s.len() && s[j2] == ',' {
            crate::json::lemma_skip_ws_bounds(s, j2 + 1);
        }
    }
}

/// A response list starting exactly at `i`.
pub open spec fn parse_responses(s: Seq<char>, i: int) -> Option<(Seq<ResponseV>, int)> {
    if 0 <= i && i < s.len() && s[i] == '[' {
        let j = skip_ws(s, i + 1);
        if j < s.len() && s[j] == ']' {
            Some((Seq::empty(), j + 1))
        } else {
            parse_response_items(s, j, Seq::empty())
        }
    } else {
        None
    }
}

pub proof fn lemma_response_items_progress(s: Seq<char>, i: int, acc: Seq<ResponseV>)
    requires
        parse_response_items(s, i, acc) is Some,
    ensures
        i < parse_response_items(s, i, acc)->Some_0.1 <= s.len(),
    decreases s.len() - i,
{
    lemma_response_progress(s, i);
    let j = parse_response(s, i)->Some_0.1;
    crate::json::lemma_skip_ws_bounds(s, j);
    let j2 = skip_ws(s, j);
    if j2 < s.len() && s[j2] == ',' {
        crate::json::lemma_skip_ws_bounds(s, j2 + 1);
        lemma_response_items_progress(
            s,
            skip_ws(s, j2 + 1),
            acc.push(parse_response(s, i)->Some_0.0),
        );
    }
}

pub proof fn lemma_responses_progress(s: Seq<char>, i: int)
    requires
        parse_responses(s, i) is Some,
    ensures
        i < parse_responses(s, i)->Some_0.1 <= s.len(),
{
    crate::json::lemma_skip_ws_bounds(s, i + 1);
    let j = skip_ws(s, i + 1);
    if j < s.len() && s[j] == ']' {
    } else {
        lemma_response_items_progress(s, j, Seq::empty());
    }
}

/// A serialized response always begins with an opening brace.
pub proof fn lemma_ser_response_first(r: ResponseV)
    ensures
        ser_response(r).len() > 0,
        ser_response(r)[0] == '{',
{
    reveal(ser_response);
}

/// The item parser inverts the item serializer for a non-empty list.
#[verifier::rlimit(100)]
pub proof fn lemma_parse_ser_response_items(
    s: Seq<char>,
    i: int,
    acc: Seq<ResponseV>,
    rs: Seq<ResponseV>,
)
    requires
        rs.len() >= 1,
        0 <= i,
        i + ser_response_items(rs).len() + 1 <= s.len(),
        s.subrange(i, i + ser_response_items(rs).len() + 1) == ser_response_items(rs) + seq![']'],
    ensures
        parse_response_items(s, i, acc) == Some((acc + rs, i + ser_response_items(rs).len() + 1)),
    decreases rs.len(),
{
    if rs.len() == 1 {
        assert(ser_response_items(rs) == ser_response(rs[0]));
        crate::json::lemma_concat_subrange(s, i, ser_response(rs[0]), seq![']']);
        lemma_parse_ser_response(s, i, rs[0]);
        let j = i + ser_response(rs[0]).len();
        assert(s[j] == s.subrange(j, j + 1)[0]);
        assert(skip_ws(s, j) == j);
        assert(acc.push(rs[0]) =~= acc + rs);
    } else {
        let tail = rs.drop_first();
        let a = ser_response(rs[0]);
        let r = ser_response_items(tail) + seq![']'];
        assert(ser_response_items(rs) + seq![']'] =~= a + (seq![','] + r));
        crate::json::lemma_concat_subrange(s, i, a, seq![','] + r);
        crate::json::lemma_concat_subrange(s, i + a.len(), seq![','], r);
        lemma_parse_ser_response(s, i, rs[0]);
        let j = i + a.len();
        assert(s[j] == s.subrange(j, j + 1)[0]);
        assert(skip_ws(s, j) == j);
        let p = j + 1;
        assert(s.subrange(p, p + r.len()) == r);
        lemma_ser_response_first(tail[0]);
        assert(ser_response_items(tail)[0] == '{') by {
            if tail.len() == 1 {
            } else {
                assert(ser_response_items(tail)[0] == ser_response(tail[0])[0]);
            }
        }
        assert(s[p] == s.subrange(p, p + r.len())[0]);
        assert(s[p] == '{');
        assert(skip_ws(s, p) == p);
        lemma_parse_ser_response_items(s, p, acc.push(rs[0]), tail);
        assert(acc.push(rs[0]) + tail =~= acc + rs);
    }
}

/// The response-list parser inverts the response-list serializer.
pub proof fn lemma_parse_ser_responses(s: Seq<char>, i: int, rs: Seq<ResponseV>)
    requires
        0 <= i,
        i + ser_responses(rs).len() <= s.len(),
        s.subrange(i, i + ser_responses(rs).len()) == ser_responses(rs),
    ensures
        parse_responses(s, i) == Some((rs, i + ser_responses(rs).len())),
{
    let items = ser_response_items(rs);
    crate::json::lemma_concat_subrange(s, i, seq!['['], items + seq![']']);
    assert(s[i] == s.subrange(i, i + 1)[0]);
    let p = i + 1;
    assert(s.subrange(p, p + items.len() + 1) == items + seq![']']);
    if rs.len() == 0 {
        assert(s[p] == s.subrange(p, p + 1)[0]);
        assert(s[p] == ']');
        assert(skip_ws(s, p) == p);
        assert(parse_responses(s, i) == Some((Seq::<ResponseV>::empty(), p + 1)));
        assert(rs =~= Seq::<ResponseV>::empty());
    } else {
        lemma_ser_response_first(rs[0]);
        assert(items[0] == '{') by {
            if rs.len() == 1 {
            } else {
                assert(items[0] == ser_response(rs[0])[0]);
            }
        }
        assert(s[p] == s.subrange(p, p + items.len() + 1)[0]);
        assert(s[p] == '{');
        assert(skip_ws(s, p) == p);
        lemma_parse_ser_response_items(s, p, Seq::empty(), rs);
        assert(Seq::empty() + rs =~= rs);
    }
}

/// Appending one item to a list appends its form after a comma.
#[verifier::rlimit(100)]
pub proof fn lemma_ser_response_items_snoc(rs: Seq<ResponseV>, r: ResponseV)
    ensures
        rs.len() == 0 ==> ser_response_items(rs.push(r)) == ser_response(r),
        rs.len() > 0 ==> ser_response_items(rs.push(r)) == ser_response_items(rs) + seq![',']
            + ser_response(r),
    decreases rs.len(),
{
    if rs.len() == 0 {
        assert(rs.push(r).len() == 1);
        assert(rs.push(r)[0] == r);
    } else {
        assert(rs.push(r)[0] == rs[0]);
        assert(rs.push(r).drop_first() =~= rs.drop_first().push(r));
        lemma_ser_response_items_snoc(rs.drop_first(), r);
        if rs.len() == 1 {
            assert(rs.push(r).len() == 2);
            assert(ser_response_items(rs.push(r)) == ser_response(rs[0]) + (seq![',']
                + ser_response_items(rs.drop_first().push(r))));
            assert(ser_response_items(rs.drop_first().push(r)) == ser_response(r));
            assert(ser_response_items(rs.push(r)) =~= ser_response_items(rs) + seq![',']
                + ser_response(r));
        } else {
            assert(ser_response_items(rs.push(r)) =~= ser_response_items(rs) + seq![',']
                + ser_response(r));
        }
    }
}

/// Appends a response list in document form.
pub fn emit_responses(out: &mut Vec<char>, rs: &Vec<Response>)
    ensures
        final(out)@ == old(out)@ + ser_responses(rs.deep_view()),
{
    out.push('[');
    let n = rs.len();
    let mut m: usize = 0;
    while m < n
        invariant
            n == rs@.len(),
            m <= n,
            rs.deep_view().len() == n,
            out@ == old(out)@ + seq!['['] + ser_response_items(rs.deep_view().take(m as int)),
        decreases n - m,
    {
        if m > 0 {
            out.push(',');
        }
        emit_response(out, &rs[m]);
        m = m + 1;
        proof {
            let dv = rs.deep_view();
            assert(dv.take(m as int) =~= dv.take(m as int - 1).push(dv[m as int - 1]));
            assert(rs[m as int - 1].deep_view() == dv[m as int - 1]);
            lemma_ser_response_items_snoc(dv.take(m as int - 1), dv[m as int - 1]);
            assert(out@ =~= old(out)@ + seq!['['] + ser_response_items(dv.take(m as int)));
        }
    }
    out.push(']');
    proof {
        assert(rs.deep_view().take(n as int) =~= rs.deep_view());
        assert(out@ =~= old(out)@ + ser_responses(rs.deep_view()));
    }
}

/// Reads a response list starting exactly at `i`.
pub fn parse_responses_exec(s: &Vec<char>, i: usize) -> (r: Result<(Vec<Response>, usize), usize>)
    requires
        i <= s@.len(),
    ensures
        r matches Ok(p) ==> parse_responses(s@, i as int) == Some((p.0.deep_view(), p.1 as int))
            && i < p.1 <= s@.len(),
        r is Err ==> parse_responses(s@, i as int) is None,
{
    if i == s.len() || s[i] != '[' {
        return Err(i);
    }
    let mut k: usize = crate::json::ws_to(s, i + 1);
    let mut acc: Vec<Response> = Vec::new();
    proof {
        assert(acc.deep_view() =~= Seq::<ResponseV>::empty());
    }
    if k < s.len() && s[k] == ']' {
        return Ok((acc, k + 1));
    }
    loop
        invariant
            i < k <= s@.len(),
            parse_responses(s@, i as int) == parse_response_items(s@, k as int, acc.deep_view()),
        decreases s@.len() - k,
    {
        let (h, j) = match parse_response_exec(s, k) {
            Ok(p) => p,
            Err(e) => {
                return Err(e);
            },
        };
        let ghost old_acc = acc.deep_view();
        acc.push(h);
        proof {
            assert(acc.deep_view() =~= old_acc.push(h@));
        }
        let j2 = crate::json::ws_to(s, j);
        if j2 < s.len() && s[j2] == ',' {
            k = crate::json::ws_to(s, j2 + 1);
        } else if j2 < s.len() && s[j2] == ']' {
            return Ok((acc, j2 + 1));
        } else {
            return Err(j2);
        }
    }
}

} // verus!
