//! The command set, and how a typed confirmation answer is read.

use vstd::prelude::*;

use crate::cli::new::NewCommand;
use crate::cli::run::RunCommand;
use crate::cli::test::TestCommand;
use crate::text::is_ws;

verus! {

#[derive(Debug)]
pub struct Args {
    pub command: Option<Commands>,
}

#[derive(Debug)]
pub enum Commands {
    New(NewCommand),
    Run(RunCommand),
    Test(TestCommand),
}

/// A prefix of whitespace trims away entirely.
proof fn lemma_end_trim_ws(s: Seq<char>, b: int)
    requires
        0 <= b <= s.len(),
        forall|m: int| 0 <= m < b ==> is_ws(#[trigger] s[m]),
    ensures
        end_trim(s, b) == 0,
    decreases b,
{
    if b > 0 {
        lemma_end_trim_ws(s, b - 1);
    }
}

/// Position after the trailing whitespace run ends, scanning back from `k`.
pub open spec fn end_trim(s: Seq<char>, k: int) -> int
    decreases k,
{
    if k <= 0 || k > s.len() {
        0
    } else if is_ws(s[k - 1]) {
        end_trim(s, k - 1)
    } else {
        k
    }
}

/// The answer with surrounding whitespace removed.
pub open spec fn trimmed(s: Seq<char>) -> Seq<char> {
    let a = crate::json::skip_ws(s, 0);
    let b = end_trim(s, s.len() as int);
    if a <= b {
        s.subrange(a, b)
    } else {
        Seq::empty()
    }
}

pub open spec fn lower_seq(s: Seq<char>) -> Seq<char> {
    s.map_values(|c: char| crate::startup::lower_char(c))
}

/// How a typed confirmation is understood: yes or no, once case and
/// surrounding whitespace are ignored; anything else asks again.
pub open spec fn confirmation_of(s: Seq<char>) -> Option<bool> {
    let t = lower_seq(trimmed(s));
    if t == seq!['y'] || t == seq!['y', 'e', 's'] {
        Some(true)
    } else if t == seq!['n'] || t == seq!['n', 'o'] {
        Some(false)
    } else {
        None
    }
}

/// Reads one typed confirmation answer; `yes` and `y` confirm, `no` and
/// `n` decline, case and surrounding whitespace ignored.
pub fn parse_confirmation(input: &str) -> (r: Option<bool>)
    ensures
        r == confirmation_of(input@),
{
    let v = crate::text::str_to_chars(input);
    let n = v.len();
    let a = crate::json::ws_to(&v, 0);
    let mut b: usize = n;
    while b > a && crate::text::ws_char(v[b - 1])
        invariant
            n == v@.len(),
            a <= b <= n,
            a == crate::json::skip_ws(v@, 0),
            end_trim(v@, n as int) <= b || end_trim(v@, n as int) == end_trim(v@, b as int),
            end_trim(v@, n as int) == end_trim(v@, b as int),
        decreases b,
    {
        b = b - 1;
    }
    proof {
        if b > a {
            assert(!is_ws(v@[b as int - 1]));
            assert(end_trim(v@, b as int) == b);
        }
        crate::json::lemma_skip_ws_bounds(v@, 0);
    }
    let mut t: Vec<char> = Vec::new();
    let mut k: usize = a;
    while k < b
        invariant
            a <= k <= b <= n,
            n == v@.len(),
            t@ == v@.subrange(a as int, k as int).map_values(
                |c: char| crate::startup::lower_char(c),
            ),
        decreases b - k,
    {
        t.push(crate::startup::lower_char_pub(v[k]));
        k = k + 1;
        proof {
            assert(t@ =~= v@.subrange(a as int, k as int).map_values(
                |c: char| crate::startup::lower_char(c),
            ));
        }
    }
    proof {
        if a <= end_trim(v@, n as int) {
            assert(trimmed(v@) == v@.subrange(a as int, end_trim(v@, n as int)));
        }
        if b <= a {
            crate::json::lemma_skip_ws_chars(v@, 0);
            lemma_end_trim_ws(v@, b as int);
            assert(end_trim(v@, n as int) == 0);
            if a == 0 {
                assert(trimmed(v@) =~= Seq::<char>::empty());
            } else {
                assert(trimmed(v@) =~= Seq::<char>::empty());
            }
            assert(v@.subrange(a as int, b as int).map_values(
                |c: char| crate::startup::lower_char(c),
            ) =~= Seq::<char>::empty());
        }
        assert(t@ == lower_seq(trimmed(v@)));
        reveal_strlit("y");
        reveal_strlit("yes");
        reveal_strlit("n");
        reveal_strlit("no");
        assert("y"@ =~= seq!['y']);
        assert("yes"@ =~= seq!['y', 'e', 's']);
        assert("n"@ =~= seq!['n']);
        assert("no"@ =~= seq!['n', 'o']);
    }
    if crate::text::chars_eq_str(&t, "y") || crate::text::chars_eq_str(&t, "yes") {
        Some(true)
    } else if crate::text::chars_eq_str(&t, "n") || crate::text::chars_eq_str(&t, "no") {
        Some(false)
    } else {
        None
    }
}

} // verus!
