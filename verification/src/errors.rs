//! Error values returned when a configuration document or a listen
//! address is rejected.

use vstd::prelude::*;

use crate::json::ser_nat;

verus! {

/// A malformed or schema-violating document, with the position where
/// reading stopped.
#[derive(Debug, PartialEq)]
pub struct ConfigError {
    pub line: usize,
    pub col: usize,
    pub detail: String,
}

/// An invalid listen address string.
#[derive(Debug, PartialEq)]
pub struct AddressError {
    pub address: String,
}

pub open spec fn lit_error_at_line() -> Seq<char> {
    seq!['e', 'r', 'r', 'o', 'r', ' ', 'a', 't', ' ', 'l', 'i', 'n', 'e', ' ']
}

pub open spec fn lit_column() -> Seq<char> {
    seq![' ', 'c', 'o', 'l', 'u', 'm', 'n', ' ']
}

pub open spec fn lit_colon_space() -> Seq<char> {
    seq![':', ' ']
}

pub open spec fn lit_invalid_address() -> Seq<char> {
    seq!['i', 'n', 'v', 'a', 'l', 'i', 'd', ' ', 'l', 'i', 's', 't', 'e', 'n', ' ', 'a', 'd', 'd',
        'r', 'e', 's', 's', ':', ' ']
}

/// The message a configuration error prints, holding its line and column.
pub open spec fn config_error_message(line: nat, col: nat, detail: Seq<char>) -> Seq<char> {
    lit_error_at_line() + ser_nat(line) + lit_column() + ser_nat(col) + lit_colon_space() + detail
}

impl ConfigError {
    /// The human-readable cause, naming the line and column.
    pub fn message(&self) -> (r: String)
        ensures
            r@ == config_error_message(self.line as nat, self.col as nat, self.detail@),
    {
        let mut out: Vec<char> = Vec::new();
        crate::json::emit_raw(&mut out, "error at line ");
        crate::json::emit_u64(&mut out, self.line as u64);
        crate::json::emit_raw(&mut out, " column ");
        crate::json::emit_u64(&mut out, self.col as u64);
        crate::json::emit_raw(&mut out, ": ");
        crate::json::emit_raw(&mut out, self.detail.as_str());
        proof {
            reveal_strlit("error at line ");
            reveal_strlit(" column ");
            reveal_strlit(": ");
            assert("error at line "@ =~= lit_error_at_line());
            assert(" column "@ =~= lit_column());
            assert(": "@ =~= lit_colon_space());
            assert(out@ =~= config_error_message(
                self.line as nat,
                self.col as nat,
                self.detail@,
            ));
        }
        crate::text::chars_to_string(&out)
    }
}

impl AddressError {
    /// The human-readable cause, naming the rejected address.
    pub fn message(&self) -> (r: String)
        ensures
            r@ == lit_invalid_address() + self.address@,
    {
        let mut out: Vec<char> = Vec::new();
        crate::json::emit_raw(&mut out, "invalid listen address: ");
        crate::json::emit_raw(&mut out, self.address.as_str());
        proof {
            reveal_strlit("invalid listen address: ");
            assert("invalid listen address: "@ =~= lit_invalid_address());
            assert(out@ =~= lit_invalid_address() + self.address@);
        }
        crate::text::chars_to_string(&out)
    }
}

/// The line of a position: one more than the newlines before it.
pub open spec fn line_of(s: Seq<char>, k: int) -> nat
    decreases k,
{
    if k <= 0 || k > s.len() {
        1
    } else {
        line_of(s, k - 1) + (if s[k - 1] == '\n' {
            1nat
        } else {
            0nat
        })
    }
}

/// The column of a position: characters since the last newline, counted
/// from one.
pub open spec fn col_of(s: Seq<char>, k: int) -> nat
    decreases k,
{
    if k <= 0 || k > s.len() {
        1
    } else if s[k - 1] == '\n' {
        1
    } else {
        col_of(s, k - 1) + 1
    }
}

/// The line and column of a position in the document.
pub fn line_col_of(s: &Vec<char>, k: usize) -> (r: (usize, usize))
    requires
        k <= s@.len(),
        k < usize::MAX,
    ensures
        r.0 == line_of(s@, k as int),
        r.1 == col_of(s@, k as int),
{
    let mut line: usize = 1;
    let mut col: usize = 1;
    let mut m: usize = 0;
    while m < k
        invariant
            k <= s@.len(),
            k < usize::MAX,
            m <= k,
            line == line_of(s@, m as int),
            col == col_of(s@, m as int),
            line <= m + 1,
            col <= m + 1,
        decreases k - m,
    {
        if s[m] == '\n' {
            line = line + 1;
            col = 1;
        } else {
            col = col + 1;
        }
        m = m + 1;
    }
    (line, col)
}

/// A configuration error at the given position of the document.
pub fn config_error_at(s: &Vec<char>, k: usize, what: &str) -> (r: ConfigError)
    ensures
        r.detail@ == what@,
{
    let n = s.len();
    let p = if k < n {
        k
    } else if n > 0 {
        n - 1
    } else {
        0
    };
    let (line, col) = line_col_of(s, p);
    ConfigError { line, col, detail: String::from_str(what) }
}

} // verus!
