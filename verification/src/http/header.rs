//! A single name/value pair with an active flag, and its document codec.

use vstd::prelude::*;

use crate::json::parse_bool;
use crate::json::parse_bool_exec;
use crate::json::parse_jstring;
use crate::json::parse_string_exec;
use crate::json::ser_bool;
use crate::json::ser_string;
use crate::json::skip_ws;
use crate::keys::key_active;
use crate::keys::key_id;
use crate::keys::key_key;
use crate::keys::key_value;

verus! {

#[derive(Debug, PartialEq)]
pub struct Header {
    pub id: String,
    pub key: String,
    pub value: String,
    pub active: bool,
}

/// The mathematical shape of a `Header`.
pub struct HeaderV {
    pub id: Seq<char>,
    pub key: Seq<char>,
    pub value: Seq<char>,
    pub active: bool,
}

impl View for Header {
    type V = HeaderV;

    open spec fn view(&self) -> HeaderV {
        HeaderV { id: self.id@, key: self.key@, value: self.value@, active: self.active }
    }
}

impl DeepView for Header {
    type V = HeaderV;

    open spec fn deep_view(&self) -> HeaderV {
        self@
    }
}

impl Clone for Header {
    fn clone(&self) -> (r: Self)
        ensures
            r@ == self@,
    {
        Header {
            id: self.id.clone(),
            key: self.key.clone(),
            value: self.value.clone(),
            active: self.active,
        }
    }
}

impl Header {
    /// A fresh active header with the given key and value.
    pub fn new(key: &str, value: &str) -> (r: Self)
        ensures
            r@.key == key@,
            r@.value == value@,
            r@.active == true,
    {
        Header {
            key: String::from_str(key),
            value: String::from_str(value),
            id: crate::ids::fresh_id(),
            active: true,
        }
    }
}

// ---------------------------------------------------------------------------
// serialization
// ---------------------------------------------------------------------------
/// A header's form in the document; fields follow the declared order.
#[verifier::opaque]
pub open spec fn ser_header(h: HeaderV) -> Seq<char> {
    seq!['{'] + (crate::json::ser_str_field(key_id(), h.id) + (seq![','] + (
    crate::json::ser_str_field(key_key(), h.key) + (seq![','] + (crate::json::ser_str_field(
        key_value(),
        h.value,
    ) + (seq![','] + (ser_string(key_active()) + (seq![':'] + (ser_bool(h.active)
        + seq!['}'])))))))))
}

/// Appends a header in document form.
#[verifier::rlimit(80)]
pub fn emit_header(out: &mut Vec<char>, h: &Header)
    ensures
        final(out)@ == old(out)@ + ser_header(h@),
{
    proof {
        reveal(ser_header);
        reveal_strlit("id");
        reveal_strlit("key");
        reveal_strlit("value");
        reveal_strlit("active");
        assert("id"@ =~= key_id());
        assert("key"@ =~= key_key());
        assert("value"@ =~= key_value());
        assert("active"@ =~= key_active());
    }
    out.push('{');
    crate::json::emit_str_field(out, "id", h.id.as_str());
    out.push(',');
    crate::json::emit_str_field(out, "key", h.key.as_str());
    out.push(',');
    crate::json::emit_str_field(out, "value", h.value.as_str());
    out.push(',');
    crate::json::emit_json_string(out, "active");
    out.push(':');
    crate::json::emit_bool(out, h.active);
    out.push('}');
    proof {
        assert(final(out)@ =~= old(out)@ + ser_header(h@));
    }
}

// ---------------------------------------------------------------------------
// parsing
// ---------------------------------------------------------------------------
/// Field values collected so far while reading a header object.
pub struct HeaderSlots {
    pub id: Option<Seq<char>>,
    pub key: Option<Seq<char>>,
    pub value: Option<Seq<char>>,
    pub active: Option<bool>,
}

pub open spec fn header_slots_empty() -> HeaderSlots {
    HeaderSlots { id: None, key: None, value: None, active: None }
}

/// A complete header from filled slots; every field is required.
pub open spec fn finish_header(sl: HeaderSlots, j: int) -> Option<(HeaderV, int)> {
    if sl.id is Some && sl.key is Some && sl.value is Some && sl.active is Some {
        Some(
            (
                HeaderV {
                    id: sl.id->Some_0,
                    key: sl.key->Some_0,
                    value: sl.value->Some_0,
                    active: sl.active->Some_0,
                },
                j,
            ),
        )
    } else {
        None
    }
}

/// One `"key": value` pair of a header object, starting at the key's
/// opening quote; a repeated or unknown key is rejected.
pub open spec fn parse_header_one(s: Seq<char>, i: int, sl: HeaderSlots) -> Option<
    (HeaderSlots, int),
> {
    match parse_jstring(s, i) {
        Option::None => None,
        Option::Some((k, j)) => {
            let j2 = skip_ws(s, j);
            if !(j2 < s.len() && s[j2] == ':') {
                None
            } else {
                let j3 = skip_ws(s, j2 + 1);
                if k == key_id() {
                    if sl.id is Some {
                        None
                    } else {
                        match parse_jstring(s, j3) {
                            Option::None => None,
                            Option::Some((v, j4)) => Some(
                                (
                                    HeaderSlots {
                                        id: Some(v),
                                        key: sl.key,
                                        value: sl.value,
                                        active: sl.active,
                                    },
                                    j4,
                                ),
                            ),
                        }
                    }
                } else if k == key_key() {
                    if sl.key is Some {
                        None
                    } else {
                        match parse_jstring(s, j3) {
                            Option::None => None,
                            Option::Some((v, j4)) => Some(
                                (
                                    HeaderSlots {
                                        id: sl.id,
                                        key: Some(v),
                                        value: sl.value,
                                        active: sl.active,
                                    },
                                    j4,
                                ),
                            ),
                        }
                    }
                } else if k == key_value() {
                    if sl.value is Some {
                        None
                    } else {
                        match parse_jstring(s, j3) {
                            Option::None => None,
                            Option::Some((v, j4)) => Some(
                                (
                                    HeaderSlots {
                                        id: sl.id,
                                        key: sl.key,
                                        value: Some(v),
                                        active: sl.active,
                                    },
                                    j4,
                                ),
                            ),
                        }
                    }
                } else if k == key_active() {
                    if sl.active is Some {
                        None
                    } else {
                        match parse_bool(s, j3) {
                            Option::None => None,
                            Option::Some((b, j4)) => Some(
                                (
                                    HeaderSlots {
                                        id: sl.id,
                                        key: sl.key,
                                        value: sl.value,
                                        active: Some(b),
                                    },
                                    j4,
                                ),
                            ),
                        }
                    }
                } else {
                    None
                }
            }
        },
    }
}

/// The fields of a header object, in any order, each at most once; `fuel`
/// bounds the number of fields and exceeds what any accepted object needs.
pub open spec fn parse_header_fields(s: Seq<char>, i: int, sl: HeaderSlots, fuel: nat) -> Option<
    (HeaderV, int),
>
    decreases fuel,
{
    if fuel == 0 {
        None
    } else {
        match parse_header_one(s, i, sl) {
            Option::None => None,
            Option::Some((sl2, j)) => {
                let j2 = skip_ws(s, j);
                if j2 < s.len() && s[j2] == ',' {
                    parse_header_fields(s, skip_ws(s, j2 + 1), sl2, (fuel - 1) as nat)
                } else if j2 < s.len() && s[j2] == '}' {
                    finish_header(sl2, j2 + 1)
                } else {
                    None
                }
            },
        }
    }
}

/// A header object starting exactly at `i`.
pub open spec fn parse_header(s: Seq<char>, i: int) -> Option<(HeaderV, int)> {
    if 0 <= i && i < s.len() && s[i] == '{' {
        let j = skip_ws(s, i + 1);
        if j < s.len() && s[j] == '}' {
            finish_header(header_slots_empty(), j + 1)
        } else {
            parse_header_fields(s, j, header_slots_empty(), 5)
        }
    } else {
        None
    }
}

pub proof fn lemma_header_one_progress(s: Seq<char>, i: int, sl: HeaderSlots)
    requires
        parse_header_one(s, i, sl) is Some,
    ensures
        i < parse_header_one(s, i, sl)->Some_0.1 <= s.len(),
{
    crate::json::lemma_jstring_progress(s, i);
    let (k, j) = parse_jstring(s, i)->Some_0;
    crate::json::lemma_skip_ws_bounds(s, j);
    let j2 = skip_ws(s, j);
    crate::json::lemma_skip_ws_bounds(s, j2 + 1);
    let j3 = skip_ws(s, j2 + 1);
    if k == key_active() {
        if parse_bool(s, j3) is Some {
            assert(parse_bool(s, j3)->Some_0.1 <= s.len());
        }
    } else {
        if parse_jstring(s, j3) is Some {
            crate::json::lemma_jstring_progress(s, j3);
        }
    }
}

pub proof fn lemma_header_fields_progress(s: Seq<char>, i: int, sl: HeaderSlots, fuel: nat)
    requires
        parse_header_fields(s, i, sl, fuel) is Some,
    ensures
        i < parse_header_fields(s, i, sl, fuel)->Some_0.1 <= s.len(),
    decreases fuel,
{
    let (sl2, j) = parse_header_one(s, i, sl)->Some_0;
    lemma_header_one_progress(s, i, sl);
    crate::json::lemma_skip_ws_bounds(s, j);
    let j2 = skip_ws(s, j);
    if j2 < s.len() && s[j2] == ',' {
        crate::json::lemma_skip_ws_bounds(s, j2 + 1);
        lemma_header_fields_progress(s, skip_ws(s, j2 + 1), sl2, (fuel - 1) as nat);
    }
}

pub proof fn lemma_header_progress(s: Seq<char>, i: int)
    requires
        parse_header(s, i) is Some,
    ensures
        i < parse_header(s, i)->Some_0.1 <= s.len(),
{
    crate::json::lemma_skip_ws_bounds(s, i + 1);
    let j = skip_ws(s, i + 1);
    if j < s.len() && s[j] == '}' {
    } else {
        lemma_header_fields_progress(s, j, header_slots_empty(), 5);
    }
}

// ---------------------------------------------------------------------------
// round trip
// ---------------------------------------------------------------------------
/// The header parser inverts the header serializer.
#[verifier::rlimit(100)]
pub proof fn lemma_parse_ser_header(s: Seq<char>, i: int, h: HeaderV)
    requires
        0 <= i,
        i + ser_header(h).len() <= s.len(),
        s.subrange(i, i + ser_header(h).len()) == ser_header(h),
    ensures
        parse_header(s, i) == Some((h, i + ser_header(h).len())),
{
    reveal(ser_header);
    let f1 = crate::json::ser_str_field(key_id(), h.id);
    let f2 = crate::json::ser_str_field(key_key(), h.key);
    let f3 = crate::json::ser_str_field(key_value(), h.value);
    let ka = ser_string(key_active());
    let b = ser_bool(h.active);
    let whole = ser_header(h);
    // peel the pieces off the front, left to right
    let r1 = f1 + (seq![','] + (f2 + (seq![','] + (f3 + (seq![','] + (ka + (seq![':'] + (b
        + seq!['}']))))))));
    crate::json::lemma_concat_subrange(s, i, seq!['{'], r1);
    assert(s[i] == s.subrange(i, i + 1)[0]);
    let p1 = i + 1;
    let r2 = seq![','] + (f2 + (seq![','] + (f3 + (seq![','] + (ka + (seq![':'] + (b
        + seq!['}'])))))));
    crate::json::lemma_concat_subrange(s, p1, f1, r2);
    crate::json::lemma_step_str_field(s, p1, key_id(), h.id);
    let q1 = p1 + f1.len();
    let r3 = f2 + (seq![','] + (f3 + (seq![','] + (ka + (seq![':'] + (b + seq!['}']))))));
    crate::json::lemma_concat_subrange(s, q1, seq![','], r3);
    assert(s[q1] == s.subrange(q1, q1 + 1)[0]);
    let p2 = q1 + 1;
    let r4 = seq![','] + (f3 + (seq![','] + (ka + (seq![':'] + (b + seq!['}'])))));
    crate::json::lemma_concat_subrange(s, p2, f2, r4);
    crate::json::lemma_step_str_field(s, p2, key_key(), h.key);
    let q2 = p2 + f2.len();
    let r5 = f3 + (seq![','] + (ka + (seq![':'] + (b + seq!['}']))));
    crate::json::lemma_concat_subrange(s, q2, seq![','], r5);
    assert(s[q2] == s.subrange(q2, q2 + 1)[0]);
    let p3 = q2 + 1;
    let r6 = seq![','] + (ka + (seq![':'] + (b + seq!['}'])));
    crate::json::lemma_concat_subrange(s, p3, f3, r6);
    crate::json::lemma_step_str_field(s, p3, key_value(), h.value);
    let q3 = p3 + f3.len();
    let r7 = ka + (seq![':'] + (b + seq!['}']));
    crate::json::lemma_concat_subrange(s, q3, seq![','], r7);
    assert(s[q3] == s.subrange(q3, q3 + 1)[0]);
    let p4 = q3 + 1;
    let r8 = seq![':'] + (b + seq!['}']);
    crate::json::lemma_concat_subrange(s, p4, ka, r8);
    let r9 = b + seq!['}'];
    crate::json::lemma_concat_subrange(s, p4 + ka.len(), seq![':'], r9);
    assert((ser_string(key_active()) + seq![':'])
        =~= s.subrange(p4, p4 + ka.len() + 1)) by {
        assert(s.subrange(p4, p4 + ka.len()) == ka);
        assert(s.subrange(p4 + ka.len(), p4 + ka.len() + 1) =~= seq![':']);
        assert forall|m: int| 0 <= m < ka.len() + 1 implies s.subrange(p4, p4 + ka.len() + 1)[m]
            == (ser_string(key_active()) + seq![':'])[m] by {
            if m < ka.len() {
                assert(s.subrange(p4, p4 + ka.len())[m] == ka[m]);
            } else {
                assert(s.subrange(p4 + ka.len(), p4 + ka.len() + 1)[m - ka.len()] == ':');
            }
        }
    }
    crate::json::lemma_step_key(s, p4, key_active());
    let vb = p4 + ka.len() + 1;
    crate::json::lemma_concat_subrange(s, vb, b, seq!['}']);
    assert(s[vb] == s.subrange(vb, vb + b.len())[0]);
    assert(crate::json::parse_lit(s, vb, b) == Some(vb + b.len()));
    if h.active {
        assert(parse_bool(s, vb) == Some((true, vb + 4)));
    } else {
        assert(crate::json::parse_lit(s, vb, crate::json::tok_true()) is None) by {
            if crate::json::parse_lit(s, vb, crate::json::tok_true()) is Some {
                assert(s.subrange(vb, vb + 4)[0] == crate::json::tok_true()[0]);
            }
        }
        assert(parse_bool(s, vb) == Some((false, vb + 5)));
    }
    let q4 = vb + b.len();
    assert(s[q4] == s.subrange(q4, q4 + 1)[0]);
    assert(s[q4] == '}');
    // walk the field loop
    let sl0 = header_slots_empty();
    let sl1 = HeaderSlots { id: Some(h.id), key: None, value: None, active: None };
    let sl2 = HeaderSlots { id: Some(h.id), key: Some(h.key), value: None, active: None };
    let sl3 = HeaderSlots { id: Some(h.id), key: Some(h.key), value: Some(h.value), active: None };
    let sl4 = HeaderSlots {
        id: Some(h.id),
        key: Some(h.key),
        value: Some(h.value),
        active: Some(h.active),
    };
    assert(s[p1] == '"');
    assert(skip_ws(s, p1) == p1);
    assert(parse_header_one(s, p1, sl0) == Some((sl1, q1)));
    assert(skip_ws(s, q1) == q1);
    assert(s[p2] == '"');
    assert(skip_ws(s, p2) == p2);
    assert(parse_header_one(s, p2, sl1) == Some((sl2, q2)));
    assert(skip_ws(s, q2) == q2);
    assert(s[p3] == '"');
    assert(skip_ws(s, p3) == p3);
    assert(parse_header_one(s, p3, sl2) == Some((sl3, q3)));
    assert(skip_ws(s, q3) == q3);
    assert(s[p4] == '"');
    assert(skip_ws(s, p4) == p4);
    assert(parse_header_one(s, p4, sl3) == Some((sl4, q4)));
    assert(skip_ws(s, q4) == q4);
    assert(parse_header_fields(s, p4, sl3, 2) == finish_header(sl4, q4 + 1));
    assert(finish_header(sl4, q4 + 1) == Some((h, q4 + 1)));
    assert(parse_header_fields(s, p3, sl2, 3) == parse_header_fields(s, p4, sl3, 2));
    assert(parse_header_fields(s, p2, sl1, 4) == parse_header_fields(s, p3, sl2, 3));
    assert(parse_header_fields(s, p1, sl0, 5) == parse_header_fields(s, p2, sl1, 4));
    assert(q4 + 1 == i + whole.len());
    assert(s[i] == '{');
    assert(skip_ws(s, i + 1) == p1);
    assert(parse_header(s, i) == parse_header_fields(s, p1, sl0, 5));
}

} // verus!

verus! {

// ---------------------------------------------------------------------------
// executable parser
// ---------------------------------------------------------------------------
pub open spec fn slot_view(o: Option<String>) -> Option<Seq<char>> {
    match o {
        Option::Some(x) => Some(x@),
        Option::None => None,
    }
}

/// Reads a header object starting exactly at `i`; on failure reports the
/// position where parsing stopped.
pub fn parse_header_exec(s: &Vec<char>, i: usize) -> (r: Result<(Header, usize), usize>)
    requires
        i <= s@.len(),
    ensures
        r matches Ok(p) ==> parse_header(s@, i as int) == Some((p.0@, p.1 as int)) && i < p.1
            <= s@.len(),
        r is Err ==> parse_header(s@, i as int) is None,
{
    proof {
        reveal_strlit("id");
        reveal_strlit("key");
        reveal_strlit("value");
        reveal_strlit("active");
        assert("id"@ =~= key_id());
        assert("key"@ =~= key_key());
        assert("value"@ =~= key_value());
        assert("active"@ =~= key_active());
    }
    if i == s.len() || s[i] != '{' {
        return Err(i);
    }
    let mut k: usize = crate::json::ws_to(s, i + 1);
    if k < s.len() && s[k] == '}' {
        return Err(k);
    }
    let mut id: Option<String> = None;
    let mut keyf: Option<String> = None;
    let mut value: Option<String> = None;
    let mut active: Option<bool> = None;
    let mut fuel: u8 = 5;
    loop
        invariant
            i < k <= s@.len(),
            parse_header(s@, i as int) == parse_header_fields(
                s@,
                k as int,
                (HeaderSlots {
                    id: slot_view(id),
                    key: slot_view(keyf),
                    value: slot_view(value),
                    active: active,
                }),
                fuel as nat,
            ),
        decreases fuel,
    {
        proof {
            reveal_strlit("id");
            reveal_strlit("key");
            reveal_strlit("value");
            reveal_strlit("active");
            assert("id"@ =~= key_id());
            assert("key"@ =~= key_key());
            assert("value"@ =~= key_value());
            assert("active"@ =~= key_active());
        }
        if fuel == 0 {
            return Err(k);
        }
        let (kt, j) = match crate::json::parse_string_exec(s, k) {
            Ok(p) => p,
            Err(e) => {
                return Err(e);
            },
        };
        let j2 = crate::json::ws_to(s, j);
        if !(j2 < s.len() && s[j2] == ':') {
            return Err(j2);
        }
        let j3 = crate::json::ws_to(s, j2 + 1);
        let jnext: usize;
        if crate::text::chars_eq_str(&kt, "id") {
            if id.is_some() {
                return Err(j3);
            }
            let (v, j4) = match crate::json::parse_string_exec(s, j3) {
                Ok(p) => p,
                Err(e) => {
                    return Err(e);
                },
            };
            id = Some(crate::text::chars_to_string(&v));
            jnext = j4;
        } else if crate::text::chars_eq_str(&kt, "key") {
            if keyf.is_some() {
                return Err(j3);
            }
            let (v, j4) = match crate::json::parse_string_exec(s, j3) {
                Ok(p) => p,
                Err(e) => {
                    return Err(e);
                },
            };
            keyf = Some(crate::text::chars_to_string(&v));
            jnext = j4;
        } else if crate::text::chars_eq_str(&kt, "value") {
            if value.is_some() {
                return Err(j3);
            }
            let (v, j4) = match crate::json::parse_string_exec(s, j3) {
                Ok(p) => p,
                Err(e) => {
                    return Err(e);
                },
            };
            value = Some(crate::text::chars_to_string(&v));
            jnext = j4;
        } else if crate::text::chars_eq_str(&kt, "active") {
            if active.is_some() {
                return Err(j3);
            }
            let (v, j4) = match parse_bool_exec(s, j3) {
                Ok(p) => p,
                Err(e) => {
                    return Err(e);
                },
            };
            active = Some(v);
            jnext = j4;
        } else {
            return Err(k);
        }
        let j5 = crate::json::ws_to(s, jnext);
        if j5 < s.len() && s[j5] == ',' {
            k = crate::json::ws_to(s, j5 + 1);
            fuel = fuel - 1;
        } else if j5 < s.len() && s[j5] == '}' {
            match (id, keyf, value, active) {
                (Some(a), Some(b), Some(c), Some(d)) => {
                    let h = Header { id: a, key: b, value: c, active: d };
                    return Ok((h, j5 + 1));
                },
                _ => {
                    return Err(j5);
                },
            }
        } else {
            return Err(j5);
        }
    }
}

// ---------------------------------------------------------------------------
// lists of headers
// ---------------------------------------------------------------------------
/// The items of a header list, separated by commas.
pub open spec fn ser_header_items(hs: Seq<HeaderV>) -> Seq<char>
    decreases hs.len(),
{
    if hs.len() == 0 {
        Seq::empty()
    } else if hs.len() == 1 {
        ser_header(hs[0])
    } else {
        ser_header(hs[0]) + (seq![','] + ser_header_items(hs.drop_first()))
    }
}

/// A header list's form in the document.
pub open spec fn ser_headers(hs: Seq<HeaderV>) -> Seq<char> {
    seq!['['] + (ser_header_items(hs) + seq![']'])
}

/// One or more comma-separated headers followed by the closing bracket.
pub open spec fn parse_header_items(s: Seq<char>, i: int, acc: Seq<HeaderV>) -> Option<
    (Seq<HeaderV>, int),
>
    decreases s.len() - i,
    via check_parse_header_items
{
    match parse_header(s, i) {
        Option::None => None,
        Option::Some((h, j)) => {
            let j2 = skip_ws(s, j);
            if j2 < s.len() && s[j2] == ',' {
                parse_header_items(s, skip_ws(s, j2 + 1), acc.push(h))
            } else if j2 < s.len() && s[j2] == ']' {
                Some((acc.push(h), j2 + 1))
            } else {
                None
            }
        },
    }
}

#[via_fn]
proof fn check_parse_header_items(s: Seq<char>, i: int, acc: Seq<HeaderV>) {
    if parse_header(s, i) is Some {
        lemma_header_progress(s, i);
        let j = parse_header(s, i)->Some_0.1;
        crate::json::lemma_skip_ws_bounds(s, j);
        let j2 = skip_ws(s, j);
        if j2 < s.len() && s[j2] == ',' {
            crate::json::lemma_skip_ws_bounds(s, j2 + 1);
        }
    }
}

/// A header list starting exactly at `i`.
pub open spec fn parse_headers(s: Seq<char>, i: int) -> Option<(Seq<HeaderV>, int)> {
    if 0 <= i && i < s.len() && s[i] == '[' {
        let j = skip_ws(s, i + 1);
        if j < s.len() && s[j] == ']' {
            Some((Seq::empty(), j + 1))
        } else {
            parse_header_items(s, j, Seq::empty())
        }
    } else {
        None
    }
}

pub proof fn lemma_header_items_progress(s: Seq<char>, i: int, acc: Seq<HeaderV>)
    requires
        parse_header_items(s, i, acc) is Some,
    ensures
        i < parse_header_items(s, i, acc)->Some_0.1 <= s.len(),
    decreases s.len() - i,
{
    lemma_header_progress(s, i);
    let j = parse_header(s, i)->Some_0.1;
    crate::json::lemma_skip_ws_bounds(s, j);
    let j2 = skip_ws(s, j);
    if j2 < s.len() && s[j2] == ',' {
        crate::json::lemma_skip_ws_bounds(s, j2 + 1);
        lemma_header_items_progress(s, skip_ws(s, j2 + 1), acc.push(parse_header(s, i)->Some_0.0));
    }
}

pub proof fn lemma_headers_progress(s: Seq<char>, i: int)
    requires
        parse_headers(s, i) is Some,
    ensures
        i < parse_headers(s, i)->Some_0.1 <= s.len(),
{
    crate::json::lemma_skip_ws_bounds(s, i + 1);
    let j = skip_ws(s, i + 1);
    if j < s.len() && s[j] == ']' {
    } else {
        lemma_header_items_progress(s, j, Seq::empty());
    }
}

/// A serialized header always begins with an opening brace.
pub proof fn lemma_ser_header_first(h: HeaderV)
    ensures
        ser_header(h).len() > 0,
        ser_header(h)[0] == '{',
{
    reveal(ser_header);
}

/// The item parser inverts the item serializer for a non-empty list.
#[verifier::rlimit(100)]
pub proof fn lemma_parse_ser_header_items(s: Seq<char>, i: int, acc: Seq<HeaderV>, hs: Seq<HeaderV>)
    requires
        hs.len() >= 1,
        0 <= i,
        i + ser_header_items(hs).len() + 1 <= s.len(),
        s.subrange(i, i + ser_header_items(hs).len() + 1) == ser_header_items(hs) + seq![']'],
    ensures
        parse_header_items(s, i, acc) == Some((acc + hs, i + ser_header_items(hs).len() + 1)),
    decreases hs.len(),
{
    if hs.len() == 1 {
        assert(ser_header_items(hs) == ser_header(hs[0]));
        crate::json::lemma_concat_subrange(s, i, ser_header(hs[0]), seq![']']);
        lemma_parse_ser_header(s, i, hs[0]);
        let j = i + ser_header(hs[0]).len();
        assert(s[j] == s.subrange(j, j + 1)[0]);
        assert(skip_ws(s, j) == j);
        assert(acc.push(hs[0]) =~= acc + hs);
    } else {
        let tail = hs.drop_first();
        let a = ser_header(hs[0]);
        let r = ser_header_items(tail) + seq![']'];
        assert(ser_header_items(hs) + seq![']'] =~= a + (seq![','] + r));
        crate::json::lemma_concat_subrange(s, i, a, seq![','] + r);
        crate::json::lemma_concat_subrange(s, i + a.len(), seq![','], r);
        lemma_parse_ser_header(s, i, hs[0]);
        let j = i + a.len();
        assert(s[j] == s.subrange(j, j + 1)[0]);
        assert(skip_ws(s, j) == j);
        let p = j + 1;
        assert(s.subrange(p, p + r.len()) == r);
        lemma_ser_header_first(tail[0]);
        assert(ser_header_items(tail)[0] == '{') by {
            if tail.len() == 1 {
            } else {
                assert(ser_header_items(tail)[0] == ser_header(tail[0])[0]);
            }
        }
        assert(s[p] == s.subrange(p, p + r.len())[0]);
        assert(s[p] == '{');
        assert(skip_ws(s, p) == p);
        lemma_parse_ser_header_items(s, p, acc.push(hs[0]), tail);
        assert(acc.push(hs[0]) + tail =~= acc + hs);
    }
}

/// The header-list parser inverts the header-list serializer.
pub proof fn lemma_parse_ser_headers(s: Seq<char>, i: int, hs: Seq<HeaderV>)
    requires
        0 <= i,
        i + ser_headers(hs).len() <= s.len(),
        s.subrange(i, i + ser_headers(hs).len()) == ser_headers(hs),
    ensures
        parse_headers(s, i) == Some((hs, i + ser_headers(hs).len())),
{
    let items = ser_header_items(hs);
    crate::json::lemma_concat_subrange(s, i, seq!['['], items + seq![']']);
    assert(s[i] == s.subrange(i, i + 1)[0]);
    let p = i + 1;
    assert(s.subrange(p, p + items.len() + 1) == items + seq![']']);
    if hs.len() == 0 {
        assert(s[p] == s.subrange(p, p + 1)[0]);
        assert(s[p] == ']');
        assert(skip_ws(s, p) == p);
        assert(parse_headers(s, i) == Some((Seq::<HeaderV>::empty(), p + 1)));
        assert(hs =~= Seq::<HeaderV>::empty());
    } else {
        lemma_ser_header_first(hs[0]);
        assert(items[0] == '{') by {
            if hs.len() == 1 {
            } else {
                assert(items[0] == ser_header(hs[0])[0]);
            }
        }
        assert(s[p] == s.subrange(p, p + items.len() + 1)[0]);
        assert(s[p] == '{');
        assert(skip_ws(s, p) == p);
        lemma_parse_ser_header_items(s, p, Seq::empty(), hs);
        assert(Seq::empty() + hs =~= hs);
    }
}

/// Appends a header list in document form.
pub fn emit_headers(out: &mut Vec<char>, hs: &Vec<Header>)
    ensures
        final(out)@ == old(out)@ + ser_headers(hs.deep_view()),
{
    out.push('[');
    let n = hs.len();
    let mut m: usize = 0;
    while m < n
        invariant
            n == hs@.len(),
            m <= n,
            hs.deep_view().len() == n,
            out@ == old(out)@ + seq!['['] + ser_header_items(hs.deep_view().take(m as int)),
            m < n ==> out@ == old(out)@ + seq!['['] + ser_header_items(
                hs.deep_view().take(m as int),
            ),
        decreases n - m,
    {
        if m > 0 {
            out.push(',');
        }
        emit_header(out, &hs[m]);
        m = m + 1;
        proof {
            let dv = hs.deep_view();
            assert(dv.take(m as int) =~= dv.take(m as int - 1).push(dv[m as int - 1]));
            assert(hs[m as int - 1].deep_view() == dv[m as int - 1]);
            lemma_ser_header_items_snoc(dv.take(m as int - 1), dv[m as int - 1]);
            assert(out@ =~= old(out)@ + seq!['['] + ser_header_items(dv.take(m as int)));
        }
    }
    out.push(']');
    proof {
        assert(hs.deep_view().take(n as int) =~= hs.deep_view());
        assert(out@ =~= old(out)@ + ser_headers(hs.deep_view()));
    }
}

/// Appending one item to a list appends its form after a comma.
#[verifier::rlimit(100)]
pub proof fn lemma_ser_header_items_snoc(hs: Seq<HeaderV>, h: HeaderV)
    ensures
        hs.len() == 0 ==> ser_header_items(hs.push(h)) == ser_header(h),
        hs.len() > 0 ==> ser_header_items(hs.push(h)) == ser_header_items(hs) + seq![',']
            + ser_header(h),
    decreases hs.len(),
{
    if hs.len() == 0 {
        assert(hs.push(h).len() == 1);
        assert(hs.push(h)[0] == h);
    } else {
        assert(hs.push(h)[0] == hs[0]);
        assert(hs.push(h).drop_first() =~= hs.drop_first().push(h));
        lemma_ser_header_items_snoc(hs.drop_first(), h);
        if hs.len() == 1 {
            assert(hs.push(h).len() == 2);
            assert(ser_header_items(hs.push(h)) == ser_header(hs[0]) + (seq![','] + ser_header_items(
                hs.drop_first().push(h),
            )));
            assert(ser_header_items(hs.drop_first().push(h)) == ser_header(h));
            assert(ser_header_items(hs.push(h)) =~= ser_header_items(hs) + seq![','] + ser_header(
                h,
            ));
        } else {
            assert(ser_header_items(hs.push(h)) =~= ser_header_items(hs) + seq![','] + ser_header(
                h,
            ));
        }
    }
}

/// Reads a header list starting exactly at `i`.
pub fn parse_headers_exec(s: &Vec<char>, i: usize) -> (r: Result<(Vec<Header>, usize), usize>)
    requires
        i <= s@.len(),
    ensures
        r matches Ok(p) ==> parse_headers(s@, i as int) == Some((p.0.deep_view(), p.1 as int)) && i
            < p.1 <= s@.len(),
        r is Err ==> parse_headers(s@, i as int) is None,
{
    if i == s.len() || s[i] != '[' {
        return Err(i);
    }
    let mut k: usize = crate::json::ws_to(s, i + 1);
    let mut acc: Vec<Header> = Vec::new();
    proof {
        assert(acc.deep_view() =~= Seq::<HeaderV>::empty());
    }
    if k < s.len() && s[k] == ']' {
        return Ok((acc, k + 1));
    }
    loop
        invariant
            i < k <= s@.len(),
            parse_headers(s@, i as int) == parse_header_items(s@, k as int, acc.deep_view()),
        decreases s@.len() - k,
    {
        let (h, j) = match parse_header_exec(s, k) {
            Ok(p) => p,
            Err(e) => {
                return Err(e);
            },
        };
        let ghost old_acc = acc.deep_view();
        acc.push(h);
        proof {
            assert(acc.deep_view() =~= old_acc.push(h@));
        }
        let j2 = crate::json::ws_to(s, j);
        if j2 < s.len() && s[j2] == ',' {
            k = crate::json::ws_to(s, j2 + 1);
        } else if j2 < s.len() && s[j2] == ']' {
            return Ok((acc, j2 + 1));
        } else {
            return Err(j2);
        }
    }
}

} // verus!
