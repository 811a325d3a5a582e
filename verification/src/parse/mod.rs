//! Interpretation layer: the controller's page structure (HTML / control JSON).
//! Every fragile, firmware-dependent contract lives below this module; a
//! selector mismatch reaches the caller as `parse_failed` (exit 6).

use vstd::prelude::*;
use crate::text::{trim, trim_spec, slice_chars};

pub mod circuits;
pub mod devices;
pub mod energy;
pub mod generic;
pub mod power;

verus! {

/// A character that may belong to the numeric part of a display string.
pub open spec fn is_num_char(c: char) -> bool {
    ('0' <= c && c <= '9') || c == '.' || c == '-'
}

/// Index of the first character at or after `i` that is not numeric.
pub open spec fn num_prefix_end(s: Seq<char>, i: int) -> int
    decreases s.len() - i,
{
    if 0 <= i < s.len() && is_num_char(s[i]) {
        num_prefix_end(s, i + 1)
    } else {
        i
    }
}

/// The display string with whitespace trimmed and the digit separators
/// (`,` and the full-width `，`) removed, cut at the first non-numeric character.
pub open spec fn lenient_clean(text: Seq<char>) -> Seq<char> {
    let s = trim_spec(text).filter(|c: char| c != ',' && c != '，');
    s.take(num_prefix_end(s, 0))
}

/// Whether `s` is a decimal literal that std's `f64::from_str` accepts, for a
/// string over `0-9 . -`: an optional leading `-`, then digits with at most one
/// `.`, at least one digit.
pub open spec fn is_decimal_literal(s: Seq<char>) -> bool {
    decimal_digits(if s.len() > 0 && s[0] == '-' { s.drop_first() } else { s })
}

/// Digits with at most one `.`, at least one digit.
pub open spec fn decimal_digits(r: Seq<char>) -> bool {
    &&& forall|i: int| 0 <= i < r.len() ==> (('0' <= #[trigger] r[i] && r[i] <= '9') || r[i] == '.')
    &&& forall|i: int, j: int| 0 <= i < j < r.len() && r[i] == '.' ==> r[j] != '.'
    &&& exists|i: int| 0 <= i < r.len() && '0' <= #[trigger] r[i] && r[i] <= '9'
}

/// The numeric text of a display string such as "650W", "1,234" or "0.5kW":
/// the literal whose `f64` value the reading is, or `None` for "-" (no
/// measurement), an empty string, or a prefix that is not a number.
pub open spec fn lenient_spec(text: Seq<char>) -> Option<Seq<char>> {
    let c = lenient_clean(text);
    if is_decimal_literal(c) { Some(c) } else { None }
}

proof fn lemma_num_prefix_end(s: Seq<char>, i: int)
    requires
        0 <= i <= s.len(),
    ensures
        i <= num_prefix_end(s, i) <= s.len(),
        forall|k: int| i <= k < num_prefix_end(s, i) ==> is_num_char(#[trigger] s[k]),
    decreases s.len() - i,
{
    if i < s.len() && is_num_char(s[i]) {
        lemma_num_prefix_end(s, i + 1);
    }
}

/// Removes `,` and `，` from `s`.
fn remove_separators(s: &[char]) -> (r: Vec<char>)
    ensures
        r@ == s@.filter(|c: char| c != ',' && c != '，'),
{
    let ghost f = |c: char| c != ',' && c != '，';
    let mut r: Vec<char> = Vec::new();
    let mut i: usize = 0;
    while i < s.len()
        invariant
            i <= s@.len(),
            f == (|c: char| c != ',' && c != '，'),
            r@ == s@.take(i as int).filter(f),
        decreases s@.len() - i,
    {
        reveal_with_fuel(Seq::filter, 1);
        assert(s@.take(i + 1).drop_last() == s@.take(i as int));
        let c = s[i];
        if c != ',' && c != '，' {
            r.push(c);
        }
        i = i + 1;
    }
    assert(s@.take(s@.len() as int) == s@);
    r
}

/// Whether `s` is a decimal literal (see [`is_decimal_literal`]).
fn decimal_literal(s: &[char]) -> (b: bool)
    ensures
        b == is_decimal_literal(s@),
{
    let start: usize = if s.len() > 0 && s[0] == '-' { 1 } else { 0 };
    let rv = slice_chars(s, start, s.len());
    let ghost r = rv@;
    assert(r == if s@.len() > 0 && s@[0] == '-' { s@.drop_first() } else { s@ });
    let mut i: usize = 0;
    let mut seen_dot = false;
    let mut seen_digit = false;
    while i < rv.len()
        invariant
            i <= r.len(),
            r == rv@,
            r == if s@.len() > 0 && s@[0] == '-' { s@.drop_first() } else { s@ },
            forall|k: int| 0 <= k < i ==> (('0' <= #[trigger] r[k] && r[k] <= '9') || r[k] == '.'),
            forall|k: int, j: int| 0 <= k < j < i && r[k] == '.' ==> r[j] != '.',
            seen_dot ==> exists|k: int| 0 <= k < i && r[k] == '.',
            !seen_dot ==> forall|k: int| 0 <= k < i ==> r[k] != '.',
            seen_digit ==> exists|k: int| 0 <= k < i && '0' <= #[trigger] r[k] && r[k] <= '9',
            !seen_digit ==> forall|k: int| 0 <= k < i ==> !('0' <= #[trigger] r[k] && r[k] <= '9'),
        decreases r.len() - i,
    {
        let c = rv[i];
        if '0' <= c && c <= '9' {
            seen_digit = true;
        } else if c == '.' {
            if seen_dot {
                let ghost k = choose|k: int| 0 <= k < i && r[k] == '.';
                assert(r[k] == '.' && r[i as int] == '.' && k < i);
                assert(!decimal_digits(r));
                return false;
            }
            seen_dot = true;
        } else {
            assert(!(('0' <= r[i as int] && r[i as int] <= '9') || r[i as int] == '.'));
            assert(!decimal_digits(r));
            return false;
        }
        i = i + 1;
    }
    assert(seen_digit == decimal_digits(r));
    seen_digit
}

/// The numeric text of a display string (see [`lenient_spec`]).
pub fn lenient_number(text: &[char]) -> (r: Option<Vec<char>>)
    ensures
        match lenient_spec(text@) {
            Some(c) => r matches Some(v) && v@ == c,
            None => r is None,
        },
{
    let t = trim(text);
    let s = remove_separators(t.as_slice());
    let mut k: usize = 0;
    while k < s.len() && (('0' <= s[k] && s[k] <= '9') || s[k] == '.' || s[k] == '-')
        invariant
            k <= s@.len(),
            num_prefix_end(s@, k as int) == num_prefix_end(s@, 0),
        decreases s@.len() - k,
    {
        k = k + 1;
    }
    let c = slice_chars(s.as_slice(), 0, k);
    assert(c@ == lenient_clean(text@));
    if decimal_literal(c.as_slice()) {
        Some(c)
    } else {
        None
    }
}

} // verus!
