//! Validation of listen-address strings: dotted-quad IPv4 and colon-
//! separated IPv6 with at most one elision.

use vstd::prelude::*;

use crate::json::fold_digits;
use crate::json::is_hex;
use crate::text::is_digit;
use crate::text::split_char;

verus! {

/// A decimal octet: one to three digits, no leading zero, at most 255.
pub open spec fn valid_octet(o: Seq<char>) -> bool {
    &&& 1 <= o.len() <= 3
    &&& (forall|k: int| 0 <= k < o.len() ==> is_digit(#[trigger] o[k]))
    &&& (o.len() > 1 ==> o[0] != '0')
    &&& fold_digits(0, o) <= 255
}

/// Every part is a valid octet.
pub open spec fn all_octets(ps: Seq<Seq<char>>) -> bool {
    forall|k: int| 0 <= k < ps.len() ==> valid_octet(#[trigger] ps[k])
}

/// Four dot-separated octets.
pub open spec fn is_ipv4(s: Seq<char>) -> bool {
    let parts = split_char(s, '.');
    parts.len() == 4 && all_octets(parts)
}

/// A group of one to four hexadecimal digits.
pub open spec fn valid_h16(g: Seq<char>) -> bool {
    1 <= g.len() <= 4 && (forall|k: int| 0 <= k < g.len() ==> is_hex(#[trigger] g[k]))
}

/// First position where two colons appear in a row, if any.
pub open spec fn find_elision(s: Seq<char>, k: int) -> Option<int>
    decreases s.len() - k,
{
    if k < 0 || k + 1 >= s.len() {
        None
    } else if s[k] == ':' && s[k + 1] == ':' {
        Some(k)
    } else {
        find_elision(s, k + 1)
    }
}

/// Every group is a valid hexadecimal group.
pub open spec fn all_h16(gs: Seq<Seq<char>>) -> bool {
    forall|k: int| 0 <= k < gs.len() ==> valid_h16(#[trigger] gs[k])
}

/// The groups around a single elision at `i`: at most seven in all, each
/// a valid hexadecimal group.
pub open spec fn ipv6_with_elision(s: Seq<char>, i: int) -> bool {
    let left = s.subrange(0, i);
    let right = s.subrange(i + 2, s.len() as int);
    let gl = if left.len() == 0 {
        Seq::<Seq<char>>::empty()
    } else {
        split_char(left, ':')
    };
    let gr = if right.len() == 0 {
        Seq::<Seq<char>>::empty()
    } else {
        split_char(right, ':')
    };
    &&& gl.len() + gr.len() <= 7
    &&& all_h16(gl)
    &&& all_h16(gr)
}

/// Eight colon-separated groups with no elision.
pub open spec fn ipv6_full(s: Seq<char>) -> bool {
    let groups = split_char(s, ':');
    groups.len() == 8 && all_h16(groups)
}

/// Colon-separated groups with either exactly eight groups, or one `::`
/// elision and at most seven groups around it.
pub open spec fn is_ipv6(s: Seq<char>) -> bool {
    match find_elision(s, 0) {
        Option::None => ipv6_full(s),
        Option::Some(i) => ipv6_with_elision(s, i),
    }
}

/// A listen address: IPv4 or IPv6 text.
pub open spec fn is_valid_ip(s: Seq<char>) -> bool {
    is_ipv4(s) || is_ipv6(s)
}

/// Checks one decimal octet.
fn check_octet(o: &Vec<char>) -> (r: bool)
    ensures
        r == valid_octet(o@),
{
    let n = o.len();
    if n < 1 || n > 3 {
        return false;
    }
    if n > 1 && o[0] == '0' {
        return false;
    }
    let mut k: usize = 0;
    let mut acc: u32 = 0;
    proof {
        assert(o@.skip(0) =~= o@);
    }
    while k < n
        invariant
            n == o@.len(),
            k <= n,
            n <= 3,
            k == 0 ==> acc == 0,
            k == 1 ==> acc <= 9,
            k == 2 ==> acc <= 99,
            k == 3 ==> acc <= 999,
            forall|m: int| 0 <= m < k ==> is_digit(#[trigger] o@[m]),
            fold_digits(0, o@) == fold_digits(acc as nat, o@.skip(k as int)),
        decreases n - k,
    {
        if !crate::text::digit_char(o[k]) {
            proof {
                assert(!is_digit(o@[k as int]));
            }
            return false;
        }
        proof {
            assert(o@.skip(k as int)[0] == o@[k as int]);
            assert(o@.skip(k as int).drop_first() =~= o@.skip(k as int + 1));
        }
        acc = acc * 10 + (o[k] as u32 - 48);
        k = k + 1;
    }
    proof {
        assert(o@.skip(n as int) =~= Seq::<char>::empty());
        assert(fold_digits(acc as nat, Seq::<char>::empty()) == acc as nat);
    }
    acc <= 255
}

/// Checks one hexadecimal group.
fn check_h16(g: &Vec<char>) -> (r: bool)
    ensures
        r == valid_h16(g@),
{
    let n = g.len();
    if n < 1 || n > 4 {
        return false;
    }
    let mut k: usize = 0;
    while k < n
        invariant
            n == g@.len(),
            k <= n,
            forall|m: int| 0 <= m < k ==> is_hex(#[trigger] g@[m]),
        decreases n - k,
    {
        if !crate::json::hex_char(g[k]) {
            proof {
                assert(!is_hex(g@[k as int]));
            }
            return false;
        }
        k = k + 1;
    }
    true
}

/// Checks a dotted-quad address.
fn check_ipv4(v: &Vec<char>) -> (r: bool)
    ensures
        r == is_ipv4(v@),
{
    let parts = crate::text::split_chars(v, '.');
    proof {
        assert(parts.deep_view().len() == parts@.len());
    }
    if parts.len() != 4 {
        return false;
    }
    let mut k: usize = 0;
    while k < 4
        invariant
            parts.deep_view() == split_char(v@, '.'),
            parts@.len() == 4,
            parts.deep_view().len() == 4,
            k <= 4,
            forall|m: int| 0 <= m < k ==> valid_octet(#[trigger] parts.deep_view()[m]),
        decreases 4 - k,
    {
        let ok = check_octet(&parts[k]);
        proof {
            assert(parts.deep_view()[k as int] == parts@[k as int].deep_view());
            assert(parts@[k as int].deep_view() =~= parts@[k as int]@);
        }
        if !ok {
            proof {
                assert(!all_octets(parts.deep_view()));
            }
            return false;
        }
        k = k + 1;
    }
    proof {
        assert(all_octets(parts.deep_view()));
    }
    true
}

/// First position of a `::` elision, if any.
fn find_elision_exec(v: &Vec<char>) -> (r: Option<usize>)
    ensures
        match r {
            Option::Some(i) => find_elision(v@, 0) == Some(i as int) && i + 2 <= v@.len(),
            Option::None => find_elision(v@, 0) is None,
        },
{
    let n = v.len();
    if n < 2 {
        return None;
    }
    let mut k: usize = 0;
    while k + 1 < n
        invariant
            n == v@.len(),
            k + 1 <= n,
            find_elision(v@, 0) == find_elision(v@, k as int),
        decreases n - k,
    {
        if v[k] == ':' && v[k + 1] == ':' {
            return Some(k);
        }
        k = k + 1;
    }
    None
}

/// Checks a list of hexadecimal groups.
fn check_groups(parts: &Vec<Vec<char>>) -> (r: bool)
    ensures
        r == all_h16(parts.deep_view()),
{
    let n = parts.len();
    let mut k: usize = 0;
    while k < n
        invariant
            n == parts@.len(),
            parts.deep_view().len() == n,
            k <= n,
            forall|m: int| 0 <= m < k ==> valid_h16(#[trigger] parts.deep_view()[m]),
        decreases n - k,
    {
        let ok = check_h16(&parts[k]);
        proof {
            assert(parts.deep_view()[k as int] == parts@[k as int].deep_view());
            assert(parts@[k as int].deep_view() =~= parts@[k as int]@);
        }
        if !ok {
            proof {
                assert(!all_h16(parts.deep_view()));
            }
            return false;
        }
        k = k + 1;
    }
    proof {
        assert(all_h16(parts.deep_view()));
    }
    true
}

/// Takes the characters before `i`.
fn take_chars(v: &Vec<char>, i: usize) -> (r: Vec<char>)
    requires
        i <= v@.len(),
    ensures
        r@ == v@.subrange(0, i as int),
{
    let mut r: Vec<char> = Vec::new();
    let mut k: usize = 0;
    while k < i
        invariant
            i <= v@.len(),
            k <= i,
            r@ == v@.subrange(0, k as int),
        decreases i - k,
    {
        r.push(v[k]);
        k = k + 1;
        proof {
            assert(r@ =~= v@.subrange(0, k as int));
        }
    }
    r
}

/// Takes the characters from `i` on.
fn skip_chars(v: &Vec<char>, i: usize) -> (r: Vec<char>)
    requires
        i <= v@.len(),
    ensures
        r@ == v@.subrange(i as int, v@.len() as int),
{
    let mut r: Vec<char> = Vec::new();
    let mut k: usize = i;
    while k < v.len()
        invariant
            i <= k <= v@.len(),
            r@ == v@.subrange(i as int, k as int),
        decreases v@.len() - k,
    {
        r.push(v[k]);
        k = k + 1;
        proof {
            assert(r@ =~= v@.subrange(i as int, k as int));
        }
    }
    proof {
        assert(r@ =~= v@.subrange(i as int, v@.len() as int));
    }
    r
}

/// Checks a colon-separated address.
fn check_ipv6(v: &Vec<char>) -> (r: bool)
    ensures
        r == is_ipv6(v@),
{
    match find_elision_exec(v) {
        Option::None => {
            let parts = crate::text::split_chars(v, ':');
            if parts.len() != 8 {
                proof {
                    assert(parts.deep_view().len() == parts@.len());
                }
                return false;
            }
            proof {
                assert(parts.deep_view().len() == parts@.len());
            }
            check_groups(&parts)
        },
        Option::Some(i) => {
            let n = v.len();
            proof {
                assert(i + 2 <= n);
            }
            let left = take_chars(v, i);
            let right = skip_chars(v, i + 2);
            let okl: bool;
            let nl: usize;
            if left.len() == 0 {
                okl = true;
                nl = 0;
            } else {
                let gl = crate::text::split_chars(&left, ':');
                nl = gl.len();
                proof {
                    assert(gl.deep_view().len() == gl@.len());
                }
                okl = check_groups(&gl);
            }
            let okr: bool;
            let nr: usize;
            if right.len() == 0 {
                okr = true;
                nr = 0;
            } else {
                let gr = crate::text::split_chars(&right, ':');
                nr = gr.len();
                proof {
                    assert(gr.deep_view().len() == gr@.len());
                }
                okr = check_groups(&gr);
            }
            let res = okl && okr && nl <= 7 && nr <= 7 - nl;
            proof {
                let ii = find_elision(v@, 0)->Some_0;
                assert(ii == i as int);
                assert(v@.subrange(0, ii) == v@.subrange(0, i as int));
                assert(v@.subrange(ii + 2, v@.len() as int) == v@.subrange(
                    i as int + 2,
                    v@.len() as int,
                ));
                let leftv = v@.subrange(0, i as int);
                let rightv = v@.subrange(i as int + 2, v@.len() as int);
                assert(left@ == leftv);
                assert(right@ == rightv);
                let gls = if leftv.len() == 0 {
                    Seq::<Seq<char>>::empty()
                } else {
                    split_char(leftv, ':')
                };
                let grs = if rightv.len() == 0 {
                    Seq::<Seq<char>>::empty()
                } else {
                    split_char(rightv, ':')
                };
                assert(gls.len() == nl);
                assert(grs.len() == nr);
                assert(okl == all_h16(gls));
                assert(okr == all_h16(grs));
                assert(is_ipv6(v@) == ipv6_with_elision(v@, i as int));
                assert(ipv6_with_elision(v@, i as int) == ((gls.len() + grs.len() <= 7) && all_h16(
                    gls,
                ) && all_h16(grs)));
                assert(res == is_ipv6(v@));
            }
            res
        },
    }
}

/// Checks a listen-address string held as collected characters.
pub fn check_ip_chars(v: &Vec<char>) -> (r: bool)
    ensures
        r == is_valid_ip(v@),
{
    if check_ipv4(v) {
        true
    } else {
        check_ipv6(v)
    }
}

/// Checks a listen-address string.
pub fn check_ip_str(s: &str) -> (r: bool)
    ensures
        r == is_valid_ip(s@),
{
    let v = crate::text::str_to_chars(s);
    check_ip_chars(&v)
}

} // verus!

verus! {

/// The loopback address is a valid listen address.
pub proof fn lemma_loopback_is_valid()
    ensures
        is_valid_ip("127.0.0.1"@),
{
    reveal_strlit("127.0.0.1");
    let s = "127.0.0.1"@;
    assert(s.len() == 9);
    reveal_with_fuel(crate::text::split_from, 12);
    let o1 = seq!['1', '2', '7'];
    let o0 = seq!['0'];
    let parts = split_char(s, '.');
    assert(s.subrange(0, 3) =~= o1);
    assert(s.subrange(4, 5) =~= o0);
    assert(s.subrange(6, 7) =~= o0);
    assert(s.subrange(8, 9) =~= o0.update(0, '1'));
    assert(parts =~= seq![
        s.subrange(0, 3),
        s.subrange(4, 5),
        s.subrange(6, 7),
        s.subrange(8, 9),
    ]);
    reveal_with_fuel(fold_digits, 5);
    assert(valid_octet(o1)) by {
        assert(fold_digits(0, o1) == 127) by {
            assert(o1.drop_first() =~= seq!['2', '7']);
            assert(o1.drop_first().drop_first() =~= seq!['7']);
            assert(o1.drop_first().drop_first().drop_first() =~= Seq::<char>::empty());
        }
    }
    let one = s.subrange(8, 9);
    assert(valid_octet(o0)) by {
        assert(o0.drop_first() =~= Seq::<char>::empty());
    }
    assert(valid_octet(one)) by {
        assert(one =~= seq!['1']);
        assert(one.drop_first() =~= Seq::<char>::empty());
    }
    assert(all_octets(parts)) by {
        assert(parts[0] == s.subrange(0, 3) && s.subrange(0, 3) =~= o1);
        assert(parts[1] == s.subrange(4, 5) && s.subrange(4, 5) =~= o0);
        assert(parts[2] == s.subrange(6, 7) && s.subrange(6, 7) =~= o0);
        assert(parts[3] == one);
    }
    assert(is_ipv4(s));
}

} // verus!
