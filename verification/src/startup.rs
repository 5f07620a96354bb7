//! The dispatch engine: the header cascade, the path pattern compiler and
//! the immutable route table built from a configuration at bootstrap.

use vstd::prelude::*;

use crate::http::header::Header;
use crate::http::header::HeaderV;
use crate::http::method::Method;
use crate::http::route::active_response_of;
use crate::http::route::Route;
use crate::http::route::RouteV;
use crate::http::serverinfo::ServerInfo;
use crate::http::serverinfo::ServerInfoV;
use crate::text::is_digit;
use crate::text::join_char;
use crate::text::split_char;

verus! {

// ---------------------------------------------------------------------------
// header cascade
// ---------------------------------------------------------------------------
/// First position in `hs` holding a header with the given key, from `j` on.
pub open spec fn key_index(hs: Seq<HeaderV>, k: Seq<char>, j: int) -> Option<int>
    decreases hs.len() - j,
{
    if j < 0 || j >= hs.len() {
        None
    } else if hs[j].key == k {
        Some(j)
    } else {
        key_index(hs, k, j + 1)
    }
}

/// Laying one header over a collection: an existing entry with the same
/// key is overwritten in place, a new key is appended.
pub open spec fn merge_step(acc: Seq<HeaderV>, h: HeaderV) -> Seq<HeaderV> {
    match key_index(acc, h.key, 0) {
        Option::Some(i) => acc.update(i, h),
        Option::None => acc.push(h),
    }
}

/// Laying a scope's headers over a collection, in declaration order.
pub open spec fn merge_fold(acc: Seq<HeaderV>, hs: Seq<HeaderV>, j: int) -> Seq<HeaderV>
    decreases hs.len() - j,
{
    if j < 0 || j >= hs.len() {
        acc
    } else {
        merge_fold(merge_step(acc, hs[j]), hs, j + 1)
    }
}

/// The three-scope cascade: server first, then route, then response;
/// a later scope's entry overwrites an earlier entry with the same key.
pub open spec fn merged3(a: Seq<HeaderV>, b: Seq<HeaderV>, c: Seq<HeaderV>) -> Seq<HeaderV> {
    merge_fold(merge_fold(merge_fold(Seq::empty(), a, 0), b, 0), c, 0)
}

pub open spec fn nodup_keys(hs: Seq<HeaderV>) -> bool {
    forall|j1: int, j2: int| 0 <= j1 < j2 < hs.len() ==> (#[trigger] hs[j1]).key != (
    #[trigger] hs[j2]).key
}

pub proof fn lemma_key_index_props(hs: Seq<HeaderV>, k: Seq<char>, j: int)
    requires
        0 <= j,
    ensures
        key_index(hs, k, j) matches Some(i) ==> j <= i < hs.len() && hs[i].key == k,
        key_index(hs, k, j) is None ==> forall|m: int| j <= m < hs.len() ==> (#[trigger] hs[m]).key
            != k,
    decreases hs.len() - j,
{
    if !(j < 0 || j >= hs.len()) && hs[j].key != k {
        lemma_key_index_props(hs, k, j + 1);
    }
}

pub proof fn lemma_merge_step_nodup(acc: Seq<HeaderV>, h: HeaderV)
    requires
        nodup_keys(acc),
    ensures
        nodup_keys(merge_step(acc, h)),
        merge_step(acc, h).len() >= acc.len(),
{
    lemma_key_index_props(acc, h.key, 0);
    match key_index(acc, h.key, 0) {
        Option::Some(i) => {
            let r = acc.update(i, h);
            assert forall|j1: int, j2: int| 0 <= j1 < j2 < r.len() implies (#[trigger] r[j1]).key
                != (#[trigger] r[j2]).key by {
                assert(acc[j1].key != acc[j2].key);
                if j1 == i {
                    assert(r[j1].key == acc[i].key);
                } else if j2 == i {
                    assert(r[j2].key == acc[i].key);
                }
            }
        },
        Option::None => {
            let r = acc.push(h);
            assert forall|j1: int, j2: int| 0 <= j1 < j2 < r.len() implies (#[trigger] r[j1]).key
                != (#[trigger] r[j2]).key by {
                if j2 < acc.len() {
                    assert(acc[j1].key != acc[j2].key);
                } else {
                    assert(r[j2] == h);
                    assert(acc[j1].key != h.key);
                }
            }
        },
    }
}

pub proof fn lemma_merge_fold_nodup(acc: Seq<HeaderV>, hs: Seq<HeaderV>, j: int)
    requires
        nodup_keys(acc),
    ensures
        nodup_keys(merge_fold(acc, hs, j)),
    decreases hs.len() - j,
{
    if !(j < 0 || j >= hs.len()) {
        lemma_merge_step_nodup(acc, hs[j]);
        lemma_merge_fold_nodup(merge_step(acc, hs[j]), hs, j + 1);
    }
}

/// The cascade never leaves two entries sharing a key.
pub proof fn lemma_merged_nodup(a: Seq<HeaderV>, b: Seq<HeaderV>, c: Seq<HeaderV>)
    ensures
        nodup_keys(merged3(a, b, c)),
{
    assert(nodup_keys(Seq::<HeaderV>::empty()));
    lemma_merge_fold_nodup(Seq::empty(), a, 0);
    lemma_merge_fold_nodup(merge_fold(Seq::empty(), a, 0), b, 0);
    lemma_merge_fold_nodup(merge_fold(merge_fold(Seq::empty(), a, 0), b, 0), c, 0);
}

proof fn lemma_key_index_skip(hs: Seq<HeaderV>, a: int, j: int)
    requires
        0 <= a <= j < hs.len(),
        forall|m: int| a <= m < j ==> (#[trigger] hs[m]).key != hs[j].key,
    ensures
        key_index(hs, hs[j].key, a) == Some(j),
    decreases j - a,
{
    if a < j {
        lemma_key_index_skip(hs, a + 1, j);
    }
}

proof fn lemma_step_same(acc: Seq<HeaderV>, h: HeaderV, j: int)
    requires
        nodup_keys(acc),
        0 <= j < acc.len(),
        acc[j] == h,
    ensures
        merge_step(acc, h) == acc,
{
    assert(forall|m: int| 0 <= m < j ==> (#[trigger] acc[m]).key != acc[j].key);
    lemma_key_index_skip(acc, 0, j);
    assert(acc.update(j, h) =~= acc);
}

proof fn lemma_fold_absorb(acc: Seq<HeaderV>, hs: Seq<HeaderV>, j: int)
    requires
        0 <= j,
        nodup_keys(acc),
        forall|m: int|
            j <= m < hs.len() ==> exists|i: int| 0 <= i < acc.len() && acc[i] == #[trigger] hs[m],
    ensures
        merge_fold(acc, hs, j) == acc,
    decreases hs.len() - j,
{
    if !(j >= hs.len()) {
        let i = choose|i: int| 0 <= i < acc.len() && acc[i] == hs[j];
        lemma_step_same(acc, hs[j], i);
        lemma_fold_absorb(acc, hs, j + 1);
    }
}

proof fn lemma_fold_fresh(acc: Seq<HeaderV>, hs: Seq<HeaderV>, j: int)
    requires
        0 <= j <= hs.len(),
        nodup_keys(acc + hs.skip(j)),
    ensures
        merge_fold(acc, hs, j) == acc + hs.skip(j),
    decreases hs.len() - j,
{
    if j >= hs.len() {
        assert(hs.skip(j) =~= Seq::<HeaderV>::empty());
        assert(acc + hs.skip(j) =~= acc);
    } else {
        let h = hs[j];
        let whole = acc + hs.skip(j);
        assert(whole[acc.len() as int] == h);
        assert(nodup_keys(acc)) by {
            assert(forall|m: int| 0 <= m < acc.len() ==> whole[m] == #[trigger] acc[m]);
        }
        assert(key_index(acc, h.key, 0) is None) by {
            lemma_key_index_props(acc, h.key, 0);
            match key_index(acc, h.key, 0) {
                Option::Some(i) => {
                    assert(whole[i] == acc[i]);
                    assert(whole[i].key == whole[acc.len() as int].key);
                },
                Option::None => {},
            }
        }
        assert(merge_step(acc, h) == acc.push(h));
        assert(acc.push(h) + hs.skip(j + 1) =~= acc + hs.skip(j));
        lemma_fold_fresh(acc.push(h), hs, j + 1);
    }
}

/// Merging the result of a merge with itself, in every scope, yields the
/// same collection: the cascade is idempotent.
pub proof fn lemma_merge_idempotent(a: Seq<HeaderV>, b: Seq<HeaderV>, c: Seq<HeaderV>)
    ensures
        merged3(merged3(a, b, c), merged3(a, b, c), merged3(a, b, c)) == merged3(a, b, c),
{
    let r = merged3(a, b, c);
    lemma_merged_nodup(a, b, c);
    assert(Seq::<HeaderV>::empty() + r.skip(0) =~= r);
    lemma_fold_fresh(Seq::empty(), r, 0);
    assert(merge_fold(Seq::empty(), r, 0) == r);
    assert(forall|m: int| 0 <= m < r.len() ==> r[m] == #[trigger] r[m]);
    lemma_fold_absorb(r, r, 0);
    assert(merge_fold(r, r, 0) == r);
}

/// First position holding a header with the given key, if any.
fn find_key(res: &Vec<Header>, k: &str) -> (r: Option<usize>)
    ensures
        match r {
            Option::Some(m) => key_index(res.deep_view(), k@, 0) == Some(m as int) && m
                < res@.len(),
            Option::None => key_index(res.deep_view(), k@, 0) is None,
        },
{
    let n = res.len();
    let mut m: usize = 0;
    while m < n
        invariant
            n == res@.len(),
            res.deep_view().len() == n,
            m <= n,
            key_index(res.deep_view(), k@, 0) == key_index(res.deep_view(), k@, m as int),
        decreases n - m,
    {
        let same = crate::http::route::str_eq_str(res[m].key.as_str(), k);
        proof {
            assert(res.deep_view()[m as int] == res@[m as int]@);
        }
        if same {
            proof {
                assert(key_index(res.deep_view(), k@, m as int) == Some(m as int));
            }
            return Some(m);
        }
        m = m + 1;
    }
    None
}

/// Lays one scope's headers over the collection, later entries of the
/// scope overwriting earlier ones with the same key.
fn apply_scope(res: &mut Vec<Header>, hs: &Vec<Header>)
    ensures
        final(res).deep_view() == merge_fold(old(res).deep_view(), hs.deep_view(), 0),
{
    let n = hs.len();
    let mut j: usize = 0;
    while j < n
        invariant
            n == hs@.len(),
            hs.deep_view().len() == n,
            j <= n,
            merge_fold(old(res).deep_view(), hs.deep_view(), 0) == merge_fold(
                res.deep_view(),
                hs.deep_view(),
                j as int,
            ),
        decreases n - j,
    {
        let h = hs[j].clone();
        proof {
            assert(hs.deep_view()[j as int] == hs@[j as int]@);
            assert(h@ == hs.deep_view()[j as int]);
        }
        let ghost prev = res.deep_view();
        let ghost prev_vec = res@;
        match find_key(res, h.key.as_str()) {
            Option::Some(m) => {
                let ghost hview = h@;
                res[m] = h;
                proof {
                    assert(res@ == prev_vec.update(m as int, res@[m as int]));
                    assert(res@[m as int]@ == hview);
                    assert forall|k2: int| 0 <= k2 < res@.len() implies res.deep_view()[k2]
                        == prev.update(m as int, hs.deep_view()[j as int])[k2] by {
                        assert(res.deep_view()[k2] == res@[k2].deep_view());
                        if k2 != m {
                            assert(res@[k2] == prev_vec[k2]);
                            assert(prev[k2] == prev_vec[k2].deep_view());
                        }
                    }
                    assert(res.deep_view() =~= prev.update(m as int, hs.deep_view()[j as int]));
                    assert(merge_step(prev, hs.deep_view()[j as int]) == res.deep_view());
                }
            },
            Option::None => {
                res.push(h);
                proof {
                    assert forall|k2: int| 0 <= k2 < res@.len() implies res.deep_view()[k2]
                        == prev.push(hs.deep_view()[j as int])[k2] by {
                        assert(res.deep_view()[k2] == res@[k2].deep_view());
                        if k2 < res@.len() - 1 {
                            assert(res@[k2] == prev_vec[k2]);
                            assert(prev[k2] == prev_vec[k2].deep_view());
                        }
                    }
                    assert(res.deep_view() =~= prev.push(hs.deep_view()[j as int]));
                    assert(merge_step(prev, hs.deep_view()[j as int]) == res.deep_view());
                }
            },
        }
        j = j + 1;
    }
}

/// Merges server, route and response headers into a single collection:
/// scopes are applied in that order, and a later scope's entry
/// overwrites any earlier entry sharing its key.
pub fn merge_headers(
    server_headers: &Vec<Header>,
    route_headers: &Vec<Header>,
    response_headers: &Vec<Header>,
) -> (r: Vec<Header>)
    ensures
        r.deep_view() == merged3(
            server_headers.deep_view(),
            route_headers.deep_view(),
            response_headers.deep_view(),
        ),
{
    let mut res: Vec<Header> = Vec::new();
    proof {
        assert(res.deep_view() =~= Seq::<HeaderV>::empty());
    }
    apply_scope(&mut res, server_headers);
    apply_scope(&mut res, route_headers);
    apply_scope(&mut res, response_headers);
    res
}

} // verus!

verus! {

// ---------------------------------------------------------------------------
// path pattern compiler
// ---------------------------------------------------------------------------
pub open spec fn is_alnum(c: char) -> bool {
    is_digit(c) || ('a' <= c && c <= 'z') || ('A' <= c && c <= 'Z')
}

pub open spec fn lower_char(c: char) -> char {
    if 'A' <= c && c <= 'Z' {
        ((c as u32 + 32) as u8) as char
    } else {
        c
    }
}

/// The captured name of a parameter segment, read from position `k`:
/// alphanumerics are lowercased, a run of other characters collapses to
/// one underscore, and a run at the very start is dropped.
pub open spec fn collapse(seg: Seq<char>, k: int, prev_alnum: bool) -> Seq<char>
    decreases seg.len() - k,
{
    if k < 1 || k >= seg.len() {
        Seq::empty()
    } else if is_alnum(seg[k]) {
        (if !prev_alnum {
            seq!['_']
        } else {
            Seq::empty()
        }) + seq![lower_char(seg[k])] + collapse(seg, k + 1, true)
    } else {
        collapse(seg, k + 1, k == 1)
    }
}

/// One path segment: a segment opening with the parameter marker is
/// rewritten into a brace-wrapped capture, any other passes unchanged.
pub open spec fn transform_segment(seg: Seq<char>) -> Seq<char> {
    if seg.len() > 0 && seg[0] == ':' {
        seq!['{'] + collapse(seg, 1, true) + seq!['}']
    } else {
        seg
    }
}

/// A whole path: segments between slashes are rewritten one by one.
pub open spec fn transform_path(s: Seq<char>) -> Seq<char> {
    join_char(split_char(s, '/').map_values(|seg: Seq<char>| transform_segment(seg)), '/')
}

fn alnum_char(c: char) -> (b: bool)
    ensures
        b == is_alnum(c),
{
    ('0' <= c && c <= '9') || ('a' <= c && c <= 'z') || ('A' <= c && c <= 'Z')
}

/// Lowercases one ASCII letter.
pub fn lower_char_pub(c: char) -> (r: char)
    ensures
        r == lower_char(c),
{
    if 'A' <= c && c <= 'Z' {
        ((c as u32 + 32) as u8) as char
    } else {
        c
    }
}

/// Rewrites one path segment.
fn transform_segment_exec(seg: &Vec<char>) -> (r: Vec<char>)
    ensures
        r@ == transform_segment(seg@),
{
    let n = seg.len();
    if n == 0 || seg[0] != ':' {
        let mut out: Vec<char> = Vec::new();
        let mut k: usize = 0;
        while k < n
            invariant
                n == seg@.len(),
                k <= n,
                out@ == seg@.subrange(0, k as int),
            decreases n - k,
        {
            out.push(seg[k]);
            k = k + 1;
            proof {
                assert(out@ =~= seg@.subrange(0, k as int));
            }
        }
        proof {
            assert(out@ =~= seg@);
        }
        return out;
    }
    let mut out: Vec<char> = Vec::new();
    out.push('{');
    let mut k: usize = 1;
    let mut prev: bool = true;
    while k < n
        invariant
            n == seg@.len(),
            1 <= k <= n,
            out@ + collapse(seg@, k as int, prev) == seq!['{'] + collapse(seg@, 1, true),
        decreases n - k,
    {
        let c = seg[k];
        if alnum_char(c) {
            if !prev {
                out.push('_');
            }
            out.push(lower_char_pub(c));
            prev = true;
        } else {
            prev = k == 1;
        }
        k = k + 1;
        proof {
            assert(out@ + collapse(seg@, k as int, prev) =~= seq!['{'] + collapse(seg@, 1, true));
        }
    }
    out.push('}');
    proof {
        assert(collapse(seg@, n as int, prev) =~= Seq::<char>::empty());
        assert(out@ =~= transform_segment(seg@));
    }
    out
}

/// Appends collected characters.
fn append_chars(out: &mut Vec<char>, v: &Vec<char>)
    ensures
        final(out)@ == old(out)@ + v@,
{
    let n = v.len();
    let mut k: usize = 0;
    while k < n
        invariant
            n == v@.len(),
            k <= n,
            out@ == old(out)@ + v@.subrange(0, k as int),
        decreases n - k,
    {
        out.push(v[k]);
        k = k + 1;
        proof {
            assert(out@ =~= old(out)@ + v@.subrange(0, k as int));
        }
    }
    proof {
        assert(old(out)@ + v@.subrange(0, n as int) =~= old(out)@ + v@);
    }
}

/// Joining grows one segment at a time.
proof fn lemma_join_snoc(ps: Seq<Seq<char>>, sep: char, m: int)
    requires
        0 <= m < ps.len(),
    ensures
        m == 0 ==> join_char(ps.take(m + 1), sep) == ps[0],
        m > 0 ==> join_char(ps.take(m + 1), sep) == join_char(ps.take(m), sep) + seq![sep] + ps[m],
    decreases m,
{
    if m == 0 {
        assert(ps.take(1).len() == 1);
        assert(ps.take(1)[0] == ps[0]);
    } else {
        let a = ps.take(m + 1);
        assert(a.len() >= 2);
        assert(a[0] == ps[0]);
        assert(a.drop_first() =~= ps.drop_first().take(m));
        lemma_join_snoc(ps.drop_first(), sep, m - 1);
        if m == 1 {
            assert(ps.drop_first().take(1)[0] == ps[1]);
            assert(join_char(ps.drop_first().take(1), sep) == ps[1]);
            assert(ps.take(1).len() == 1);
            assert(ps.take(1)[0] == ps[0]);
            assert(join_char(a, sep) =~= join_char(ps.take(m), sep) + seq![sep] + ps[m]);
        } else {
            assert(ps.drop_first().take(m - 1) =~= ps.take(m).drop_first());
            assert(ps.take(m)[0] == ps[0]);
            assert(ps.take(m).len() >= 2);
            assert(join_char(a, sep) =~= join_char(ps.take(m), sep) + seq![sep] + ps[m]);
        }
    }
}

/// Compiles a route path: parameter segments marked with a colon become
/// brace-wrapped lowercase captures, runs of other characters inside
/// them collapsing to one underscore; other segments pass unchanged.
pub fn transform_route_path(input: &str) -> (r: String)
    ensures
        r@ == transform_path(input@),
{
    let v = crate::text::str_to_chars(input);
    let parts = crate::text::split_chars(&v, '/');
    let ghost mapped = split_char(v@, '/').map_values(|seg: Seq<char>| transform_segment(seg));
    let mut out: Vec<char> = Vec::new();
    let n = parts.len();
    proof {
        assert(parts.deep_view().len() == parts@.len());
        assert(mapped.len() == n);
    }
    let mut m: usize = 0;
    while m < n
        invariant
            n == parts@.len(),
            parts.deep_view() == split_char(v@, '/'),
            mapped == split_char(v@, '/').map_values(|seg: Seq<char>| transform_segment(seg)),
            mapped.len() == n,
            n >= 1,
            m <= n,
            out@ == join_char(mapped.take(m as int), '/'),
        decreases n - m,
    {
        if m > 0 {
            out.push('/');
        }
        let t = transform_segment_exec(&parts[m]);
        proof {
            assert(parts.deep_view()[m as int] == parts@[m as int].deep_view());
            assert(parts@[m as int].deep_view() =~= parts@[m as int]@);
            assert(t@ == transform_segment(split_char(v@, '/')[m as int]));
            assert(mapped[m as int] == t@);
        }
        append_chars(&mut out, &t);
        m = m + 1;
        proof {
            lemma_join_snoc(mapped, '/', m as int - 1);
            assert(out@ =~= join_char(mapped.take(m as int), '/'));
        }
    }
    proof {
        assert(mapped.take(n as int) =~= mapped);
        assert(out@ == transform_path(v@));
    }
    crate::text::chars_to_string(&out)
}

} // verus!

verus! {

// ---------------------------------------------------------------------------
// route table
// ---------------------------------------------------------------------------
/// One prepared registration: everything a request handler needs,
/// captured once at bootstrap.
#[derive(Debug, PartialEq)]
pub struct RouteEntry {
    pub method: Method,
    pub path: String,
    pub status: u16,
    pub body: String,
    pub headers: Vec<Header>,
}

/// The mathematical shape of a `RouteEntry`.
pub struct RouteEntryV {
    pub method: Method,
    pub path: Seq<char>,
    pub status: u16,
    pub body: Seq<char>,
    pub headers: Seq<HeaderV>,
}

impl View for RouteEntry {
    type V = RouteEntryV;

    open spec fn view(&self) -> RouteEntryV {
        RouteEntryV {
            method: self.method,
            path: self.path@,
            status: self.status,
            body: self.body@,
            headers: self.headers.deep_view(),
        }
    }
}

impl DeepView for RouteEntry {
    type V = RouteEntryV;

    open spec fn deep_view(&self) -> RouteEntryV {
        self@
    }
}

/// The registration a route contributes: its active response's status
/// and body behind the compiled path, with the merged header cascade; a
/// route with no active response contributes nothing.
pub open spec fn entry_of(server_headers: Seq<HeaderV>, r: RouteV) -> Option<RouteEntryV> {
    match active_response_of(r) {
        Option::None => None,
        Option::Some(resp) => Some(
            RouteEntryV {
                method: r.method,
                path: transform_path(r.path),
                status: resp.status,
                body: resp.response,
                headers: merged3(server_headers, r.headers, resp.headers),
            },
        ),
    }
}

/// The registrations of the routes from position `k` on, in declaration
/// order, routes without an active response silently omitted.
pub open spec fn table_from(server_headers: Seq<HeaderV>, routes: Seq<RouteV>, k: int) -> Seq<
    RouteEntryV,
>
    decreases routes.len() - k,
{
    if k < 0 || k >= routes.len() {
        Seq::empty()
    } else {
        (match entry_of(server_headers, routes[k]) {
            Option::Some(e) => seq![e],
            Option::None => Seq::empty(),
        }) + table_from(server_headers, routes, k + 1)
    }
}

/// The whole route table of a configuration.
pub open spec fn table_of(si: ServerInfoV) -> Seq<RouteEntryV> {
    table_from(si.server.headers, si.router.routes, 0)
}

/// Builds one route's registration, if it has an active response.
pub fn make_route_handler(server_headers: &Vec<Header>, route: &Route) -> (r: Option<RouteEntry>)
    ensures
        match r {
            Option::Some(e) => entry_of(server_headers.deep_view(), route@) == Some(e@),
            Option::None => entry_of(server_headers.deep_view(), route@) is None,
        },
{
    match route.get_active_response() {
        Option::None => None,
        Option::Some(resp) => {
            let path = transform_route_path(route.path.as_str());
            let headers = merge_headers(server_headers, &route.headers, &resp.headers);
            let body = resp.get_response_body();
            proof {
                crate::http::response::lemma_response_fields(resp);
                crate::http::route::lemma_route_fields(route);
            }
            Some(
                RouteEntry { method: route.method, path, status: resp.status, body, headers },
            )
        },
    }
}

/// Builds the immutable route table for a configuration, one entry per
/// route with an active response, in declaration order.
pub fn build_route_table(si: &ServerInfo) -> (r: Vec<RouteEntry>)
    ensures
        r.deep_view() == table_of(si@),
{
    let mut table: Vec<RouteEntry> = Vec::new();
    let n = si.router.routes.len();
    proof {
        assert(table.deep_view() =~= Seq::<RouteEntryV>::empty());
        assert(si@.router.routes.len() == n);
    }
    let mut m: usize = 0;
    while m < n
        invariant
            n == si.router.routes@.len(),
            si@.router.routes.len() == n,
            m <= n,
            table_of(si@) == table.deep_view() + table_from(
                si@.server.headers,
                si@.router.routes,
                m as int,
            ),
        decreases n - m,
    {
        let ghost prev = table.deep_view();
        let ghost prev_vec = table@;
        proof {
            assert(si@.router.routes[m as int] == si.router.routes@[m as int]@);
            assert(si@.server.headers == si.server.headers.deep_view());
        }
        match make_route_handler(&si.server.headers, &si.router.routes[m]) {
            Option::Some(e) => {
                let ghost ev = e@;
                table.push(e);
                proof {
                    assert forall|k2: int| 0 <= k2 < table@.len() implies table.deep_view()[k2]
                        == prev.push(ev)[k2] by {
                        assert(table.deep_view()[k2] == table@[k2].deep_view());
                        if k2 < table@.len() - 1 {
                            assert(table@[k2] == prev_vec[k2]);
                            assert(prev[k2] == prev_vec[k2].deep_view());
                        }
                    }
                    assert(table.deep_view() =~= prev.push(ev));
                    assert(seq![ev] + table_from(si@.server.headers, si@.router.routes, m as int + 1)
                        =~= table_from(si@.server.headers, si@.router.routes, m as int));
                    assert(prev.push(ev) + table_from(
                        si@.server.headers,
                        si@.router.routes,
                        m as int + 1,
                    ) =~= prev + table_from(si@.server.headers, si@.router.routes, m as int));
                }
            },
            Option::None => {
                proof {
                    assert(Seq::<RouteEntryV>::empty() + table_from(
                        si@.server.headers,
                        si@.router.routes,
                        m as int + 1,
                    ) =~= table_from(si@.server.headers, si@.router.routes, m as int));
                }
            },
        }
        m = m + 1;
    }
    proof {
        assert(table_from(si@.server.headers, si@.router.routes, n as int) =~= Seq::<
            RouteEntryV,
        >::empty());
        assert(table.deep_view() + table_from(si@.server.headers, si@.router.routes, n as int)
            =~= table.deep_view());
    }
    table
}

} // verus!
