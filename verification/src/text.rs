//! Character-level helpers shared by the document codec, the address
//! validator and the path pattern compiler.

use vstd::prelude::*;

verus! {

/// Whitespace accepted between tokens of the configuration document.
pub open spec fn is_ws(c: char) -> bool {
    c == ' ' || c == '\n' || c == '\t' || c == '\r'
}

pub open spec fn is_digit(c: char) -> bool {
    '0' <= c && c <= '9'
}

pub fn ws_char(c: char) -> (b: bool)
    ensures
        b == is_ws(c),
{
    c == ' ' || c == '\n' || c == '\t' || c == '\r'
}

pub fn digit_char(c: char) -> (b: bool)
    ensures
        b == is_digit(c),
{
    '0' <= c && c <= '9'
}

/// Collects the characters of a string slice into a vector.
pub fn str_to_chars(s: &str) -> (v: Vec<char>)
    ensures
        v@ == s@,
{
    let n: usize = s.unicode_len();
    let mut v: Vec<char> = Vec::new();
    let mut i: usize = 0;
    while i < n
        invariant
            n == s@.len(),
            i <= n,
            v@ == s@.subrange(0, i as int),
        decreases n - i,
    {
        v.push(s.get_char(i));
        i = i + 1;
        proof {
            assert(v@ =~= s@.subrange(0, i as int));
        }
    }
    proof {
        assert(v@ =~= s@);
    }
    v
}

/// Relies on `String: FromIterator<char>`: collecting chars yields the
/// string whose characters are exactly the collected sequence.
#[verifier::external_body]
pub fn chars_to_string(v: &Vec<char>) -> (s: String)
    ensures
        s@ == v@,
{
    v.iter().collect()
}

} // verus!


verus! {

/// Compares collected characters against a string slice.
pub fn chars_eq_str(v: &Vec<char>, s: &str) -> (b: bool)
    ensures
        b == (v@ == s@),
{
    let n: usize = s.unicode_len();
    if v.len() != n {
        proof {
            assert(v@ != s@);
        }
        return false;
    }
    let mut i: usize = 0;
    while i < n
        invariant
            n == s@.len(),
            v@.len() == n,
            i <= n,
            forall|k: int| 0 <= k < i ==> v@[k] == s@[k],
        decreases n - i,
    {
        if v[i] != s.get_char(i) {
            proof {
                assert(v@[i as int] != s@[i as int]);
            }
            return false;
        }
        i = i + 1;
    }
    proof {
        assert(v@ =~= s@);
    }
    true
}

} // verus!

verus! {

/// The segments of `s` between occurrences of `sep`, scanning from `cur`
/// with the current segment open since `start`.
pub open spec fn split_from(s: Seq<char>, sep: char, start: int, cur: int) -> Seq<Seq<char>>
    decreases s.len() - cur,
{
    if cur < start || cur >= s.len() || start < 0 {
        seq![s.subrange(start, s.len() as int)]
    } else if s[cur] == sep {
        seq![s.subrange(start, cur)] + split_from(s, sep, cur + 1, cur + 1)
    } else {
        split_from(s, sep, start, cur + 1)
    }
}

/// The segments of `s` between occurrences of `sep`; an empty `s` has one
/// empty segment.
pub open spec fn split_char(s: Seq<char>, sep: char) -> Seq<Seq<char>> {
    split_from(s, sep, 0, 0)
}

/// The segments joined back with `sep` between them.
pub open spec fn join_char(parts: Seq<Seq<char>>, sep: char) -> Seq<char>
    decreases parts.len(),
{
    if parts.len() == 0 {
        Seq::empty()
    } else if parts.len() == 1 {
        parts[0]
    } else {
        parts[0] + seq![sep] + join_char(parts.drop_first(), sep)
    }
}

/// Splits collected characters on a separator.
pub fn split_chars(v: &Vec<char>, sep: char) -> (r: Vec<Vec<char>>)
    ensures
        r.deep_view() == split_char(v@, sep),
        r.deep_view().len() >= 1,
{
    let n = v.len();
    let mut acc: Vec<Vec<char>> = Vec::new();
    let mut seg: Vec<char> = Vec::new();
    let mut start: usize = 0;
    let mut cur: usize = 0;
    while cur < n
        invariant
            n == v@.len(),
            0 <= start <= cur <= n,
            seg@ == v@.subrange(start as int, cur as int),
            split_char(v@, sep) == acc.deep_view() + split_from(v@, sep, start as int, cur as int),
        decreases n - cur,
    {
        let c = v[cur];
        if c == sep {
            let ghost old_acc = acc.deep_view();
            let ghost old_vec = acc@;
            let ghost segsnap = seg@;
            acc.push(seg);
            seg = Vec::new();
            proof {
                assert(acc@ == old_vec.push(acc@[old_vec.len() as int]));
                assert forall|k2: int| 0 <= k2 < acc@.len() implies acc.deep_view()[k2]
                    == old_acc.push(segsnap)[k2] by {
                    assert(acc.deep_view()[k2] == acc@[k2].deep_view());
                    if k2 < acc@.len() - 1 {
                        assert(acc@[k2] == old_vec[k2]);
                        assert(old_acc[k2] == old_vec[k2].deep_view());
                    } else {
                        assert(acc@[k2].deep_view() == segsnap);
                    }
                }
                assert(acc.deep_view() =~= old_acc.push(segsnap));
                assert(acc.deep_view() =~= old_acc.push(v@.subrange(start as int, cur as int)));
                assert(seg@ =~= v@.subrange(cur as int + 1, cur as int + 1));
                assert(acc.deep_view() + split_from(v@, sep, cur as int + 1, cur as int + 1) =~=
                    old_acc + (seq![v@.subrange(start as int, cur as int)] + split_from(
                    v@,
                    sep,
                    cur as int + 1,
                    cur as int + 1,
                )));
            }
            start = cur + 1;
        } else {
            seg.push(c);
            proof {
                assert(seg@ =~= v@.subrange(start as int, cur as int + 1));
            }
        }
        cur = cur + 1;
    }
    let ghost old_acc = acc.deep_view();
    let ghost old_vec = acc@;
    let ghost segsnap = seg@;
    proof {
        assert(seg@ == v@.subrange(start as int, n as int));
    }
    acc.push(seg);
    proof {
        assert forall|k2: int| 0 <= k2 < acc@.len() implies acc.deep_view()[k2] == old_acc.push(
            segsnap,
        )[k2] by {
            assert(acc.deep_view()[k2] == acc@[k2].deep_view());
            if k2 < acc@.len() - 1 {
                assert(acc@[k2] == old_vec[k2]);
                assert(old_acc[k2] == old_vec[k2].deep_view());
            } else {
                assert(acc@[k2].deep_view() == segsnap);
            }
        }
        assert(acc.deep_view() =~= old_acc.push(segsnap));
        assert(acc.deep_view() =~= old_acc.push(v@.subrange(start as int, n as int)));
        assert(split_from(v@, sep, start as int, n as int) == seq![
            v@.subrange(start as int, n as int),
        ]);
        assert(acc.deep_view() =~= split_char(v@, sep));
    }
    acc
}

} // verus!
