//! The KDE adapter's logic: parsing the desktop shell's JSON reply to the
//! desktop-enumeration script, and building the script that applies
//! wallpapers.
//!
//! The reply to the query script is a JSON array of objects, of which the
//! fields `screen` (a display index, negative for an inactive desktop) and
//! `id` (the desktop's identifier, non-negative) must each appear exactly
//! once, hold plain integers and fit 32 bits. The desktop objects carry
//! further fields of arbitrary JSON values (strings, numbers, literals,
//! nested arrays and objects); those are skipped, constrained only to be
//! well-formed JSON.

use vstd::prelude::*;

use crate::screen::{kde_mode_code, spec_kde_mode_code, Screen, ScreenSpec, WallpaperError};
use crate::text::{spec_dec, str_eq, u64_to_string};

verus! {

/// One desktop record of the enumeration reply.
pub struct KdeDesktop {
    /// The display index; negative for an inactive or virtual desktop.
    pub screen: i64,
    /// The desktop's identifier.
    pub id: u64,
}

/// The model of one desktop record.
pub ghost struct DesktopInfo {
    pub screen: int,
    pub id: int,
}

impl View for KdeDesktop {
    type V = DesktopInfo;

    open spec fn view(&self) -> DesktopInfo {
        DesktopInfo { screen: self.screen as int, id: self.id as int }
    }
}

/// The blank characters allowed between tokens.
pub open spec fn is_ws_char(c: char) -> bool {
    c == ' ' || c == '\t' || c == '\n' || c == '\r'
}

/// The first position at or after `i` holding no blank character.
pub open spec fn spec_ws(s: Seq<char>, i: int) -> int
    decreases s.len() - i,
{
    if 0 <= i < s.len() && is_ws_char(s[i]) {
        spec_ws(s, i + 1)
    } else {
        i
    }
}

proof fn lemma_ws_bounds(s: Seq<char>, i: int)
    requires
        0 <= i <= s.len(),
    ensures
        i <= spec_ws(s, i) <= s.len(),
    decreases s.len() - i,
{
    if i < s.len() && is_ws_char(s[i]) {
        lemma_ws_bounds(s, i + 1);
    }
}

fn p_ws(s: &str, i: usize) -> (r: usize)
    requires
        i <= s@.len(),
    ensures
        r as int == spec_ws(s@, i as int),
        i <= r <= s@.len(),
    decreases s@.len() - i,
{
    let n = s.unicode_len();
    if i < n {
        let c = s.get_char(i);
        if c == ' ' || c == '\t' || c == '\n' || c == '\r' {
            return p_ws(s, i + 1);
        }
    }
    i
}

/// The numeric value of a decimal digit character.
pub open spec fn digit_val(c: char) -> Option<int> {
    if c == '0' {
        Some(0)
    } else if c == '1' {
        Some(1)
    } else if c == '2' {
        Some(2)
    } else if c == '3' {
        Some(3)
    } else if c == '4' {
        Some(4)
    } else if c == '5' {
        Some(5)
    } else if c == '6' {
        Some(6)
    } else if c == '7' {
        Some(7)
    } else if c == '8' {
        Some(8)
    } else if c == '9' {
        Some(9)
    } else {
        None
    }
}

fn digit_of(c: char) -> (r: Option<u64>)
    ensures
        match digit_val(c) {
            Some(d) => r matches Some(x) && x as int == d,
            None => r is None,
        },
{
    match c {
        '0' => Some(0),
        '1' => Some(1),
        '2' => Some(2),
        '3' => Some(3),
        '4' => Some(4),
        '5' => Some(5),
        '6' => Some(6),
        '7' => Some(7),
        '8' => Some(8),
        '9' => Some(9),
        _ => None,
    }
}

/// The end of the run of digits starting at `i`.
pub open spec fn spec_num_end(s: Seq<char>, i: int) -> int
    decreases s.len() - i,
{
    if 0 <= i < s.len() && digit_val(s[i]) is Some {
        spec_num_end(s, i + 1)
    } else {
        i
    }
}

proof fn lemma_num_end_props(s: Seq<char>, i: int)
    requires
        0 <= i <= s.len(),
    ensures
        i <= spec_num_end(s, i) <= s.len(),
        forall|k: int| i <= k < spec_num_end(s, i) ==> digit_val(#[trigger] s[k]) is Some,
    decreases s.len() - i,
{
    if i < s.len() && digit_val(s[i]) is Some {
        lemma_num_end_props(s, i + 1);
    }
}

fn p_num_end(s: &str, i: usize) -> (r: usize)
    requires
        i <= s@.len(),
    ensures
        r as int == spec_num_end(s@, i as int),
        i <= r <= s@.len(),
    decreases s@.len() - i,
{
    let n = s.unicode_len();
    if i < n {
        let c = s.get_char(i);
        if digit_of(c).is_some() {
            return p_num_end(s, i + 1);
        }
    }
    i
}

/// The value of the digit run `s[i..j)`.
pub open spec fn spec_num_val(s: Seq<char>, i: int, j: int) -> int
    decreases j - i,
{
    if i >= j {
        0
    } else {
        spec_num_val(s, i, j - 1) * 10 + (match digit_val(s[j - 1]) {
            Some(d) => d,
            None => 0,
        })
    }
}

/// The `n`-th power of ten, bounding what a digit run can amount to.
spec fn pow10(n: nat) -> int
    decreases n,
{
    if n == 0 {
        1
    } else {
        10 * pow10((n - 1) as nat)
    }
}

proof fn lemma_pow10_mono(a: nat, b: nat)
    requires
        a <= b,
    ensures
        0 < pow10(a) <= pow10(b),
    decreases b,
{
    if a == b {
        if a > 0 {
            lemma_pow10_mono((a - 1) as nat, (a - 1) as nat);
        }
    } else {
        lemma_pow10_mono(a, (b - 1) as nat);
    }
}

/// The end of a JSON number's integer part at `i`: an optional minus sign,
/// then either a single `0` or a run of digits not starting with `0`.
pub open spec fn spec_int_part_end(s: Seq<char>, i: int) -> Option<int> {
    let m = if 0 <= i < s.len() && s[i] == '-' {
        i + 1
    } else {
        i
    };
    if 0 <= m < s.len() && digit_val(s[m]) is Some {
        if s[m] == '0' {
            Some(m + 1)
        } else {
            Some(spec_num_end(s, m))
        }
    } else {
        None
    }
}

/// The end of a JSON number's fraction part starting at `i`, where a
/// fraction is allowed but not required.
pub open spec fn spec_frac_end(s: Seq<char>, i: int) -> Option<int> {
    if 0 <= i < s.len() && s[i] == '.' {
        if i + 1 < s.len() && digit_val(s[i + 1]) is Some {
            Some(spec_num_end(s, i + 1))
        } else {
            None
        }
    } else {
        Some(i)
    }
}

/// The end of a JSON number's exponent part starting at `i`, where an
/// exponent is allowed but not required.
pub open spec fn spec_exp_end(s: Seq<char>, i: int) -> Option<int> {
    if 0 <= i < s.len() && (s[i] == 'e' || s[i] == 'E') {
        let m = if i + 1 < s.len() && (s[i + 1] == '+' || s[i + 1] == '-') {
            i + 2
        } else {
            i + 1
        };
        if 0 <= m < s.len() && digit_val(s[m]) is Some {
            Some(spec_num_end(s, m))
        } else {
            None
        }
    } else {
        Some(i)
    }
}

/// The end of a JSON number at `i`.
pub open spec fn spec_number_end(s: Seq<char>, i: int) -> Option<int> {
    match spec_int_part_end(s, i) {
        None => None,
        Some(e1) => match spec_frac_end(s, e1) {
            None => None,
            Some(e2) => spec_exp_end(s, e2),
        },
    }
}

proof fn lemma_number_end_bounds(s: Seq<char>, i: int)
    requires
        spec_number_end(s, i) is Some,
    ensures
        i < spec_number_end(s, i)->Some_0 <= s.len(),
{
    let m = if 0 <= i < s.len() && s[i] == '-' {
        i + 1
    } else {
        i
    };
    let e1 = spec_int_part_end(s, i)->Some_0;
    lemma_num_end_props(s, m + 1);
    assert(i < e1 <= s.len());
    let e2 = spec_frac_end(s, e1)->Some_0;
    if e1 < s.len() && s[e1] == '.' {
        lemma_num_end_props(s, e1 + 1);
    }
    assert(e1 <= e2 <= s.len());
    let e3 = spec_exp_end(s, e2)->Some_0;
    if e2 < s.len() && (s[e2] == 'e' || s[e2] == 'E') {
        let m2 = if e2 + 1 < s.len() && (s[e2 + 1] == '+' || s[e2 + 1] == '-') {
            e2 + 2
        } else {
            e2 + 1
        };
        lemma_num_end_props(s, m2);
    }
    assert(e2 <= e3 <= s.len());
}

/// The value of the JSON number at `i` when it is a plain integer of at most
/// ten digits; `None` for a fraction, an exponent, or a longer digit run.
pub open spec fn spec_int_value(s: Seq<char>, i: int) -> Option<int> {
    match spec_int_part_end(s, i) {
        None => None,
        Some(e1) => if spec_number_end(s, i) == Some(e1) {
            let m = if s[i] == '-' {
                i + 1
            } else {
                i
            };
            if e1 - m <= 10 {
                if s[i] == '-' {
                    Some(-spec_num_val(s, m, e1))
                } else {
                    Some(spec_num_val(s, m, e1))
                }
            } else {
                None
            }
        } else {
            None
        },
    }
}

fn p_int_part_end(s: &str, i: usize) -> (r: Option<usize>)
    requires
        i <= s@.len(),
    ensures
        match spec_int_part_end(s@, i as int) {
            Some(p) => r matches Some(q) && q as int == p && i < q <= s@.len(),
            None => r is None,
        },
{
    let n = s.unicode_len();
    let m = if i < n && s.get_char(i) == '-' {
        i + 1
    } else {
        i
    };
    if m < n {
        let c = s.get_char(m);
        if digit_of(c).is_some() {
            if c == '0' {
                return Some(m + 1);
            } else {
                let e = p_num_end(s, m);
                proof {
                    lemma_num_end_props(s@, m as int + 1);
                }
                return Some(e);
            }
        }
    }
    None
}

fn p_frac_end(s: &str, i: usize) -> (r: Option<usize>)
    requires
        i <= s@.len(),
    ensures
        match spec_frac_end(s@, i as int) {
            Some(p) => r matches Some(q) && q as int == p && i <= q <= s@.len(),
            None => r is None,
        },
{
    let n = s.unicode_len();
    if i < n && s.get_char(i) == '.' {
        if i + 1 < n && digit_of(s.get_char(i + 1)).is_some() {
            proof {
                lemma_num_end_props(s@, i as int + 1);
            }
            Some(p_num_end(s, i + 1))
        } else {
            None
        }
    } else {
        Some(i)
    }
}

fn p_exp_end(s: &str, i: usize) -> (r: Option<usize>)
    requires
        i <= s@.len(),
    ensures
        match spec_exp_end(s@, i as int) {
            Some(p) => r matches Some(q) && q as int == p && i <= q <= s@.len(),
            None => r is None,
        },
{
    let n = s.unicode_len();
    if i < n {
        let c = s.get_char(i);
        if c == 'e' || c == 'E' {
            let m = if i + 1 < n {
                let c2 = s.get_char(i + 1);
                if c2 == '+' || c2 == '-' {
                    i + 2
                } else {
                    i + 1
                }
            } else {
                i + 1
            };
            if m < n && digit_of(s.get_char(m)).is_some() {
                proof {
                    lemma_num_end_props(s@, m as int);
                }
                return Some(p_num_end(s, m));
            } else {
                return None;
            }
        }
    }
    Some(i)
}

fn p_number_end(s: &str, i: usize) -> (r: Option<usize>)
    requires
        i <= s@.len(),
    ensures
        match spec_number_end(s@, i as int) {
            Some(p) => r matches Some(q) && q as int == p && i < q <= s@.len(),
            None => r is None,
        },
{
    match p_int_part_end(s, i) {
        None => None,
        Some(e1) => match p_frac_end(s, e1) {
            None => None,
            Some(e2) => p_exp_end(s, e2),
        },
    }
}

fn p_int_value(s: &str, i: usize) -> (r: Option<i64>)
    requires
        i <= s@.len(),
    ensures
        match spec_int_value(s@, i as int) {
            Some(v) => r matches Some(x) && x as int == v && -9_999_999_999 <= x
                <= 9_999_999_999,
            None => r is None,
        },
{
    let e1 = match p_int_part_end(s, i) {
        Some(e) => e,
        None => {
            return None;
        },
    };
    let ne = match p_number_end(s, i) {
        Some(e) => e,
        None => {
            return None;
        },
    };
    if ne != e1 {
        return None;
    }
    let neg = s.get_char(i) == '-';
    let m = if neg {
        i + 1
    } else {
        i
    };
    if e1 - m > 10 {
        return None;
    }
    proof {
        assert(digit_val(s@[m as int]) is Some);
        if s@[m as int] == '0' {
            assert(forall|k: int| m <= k < e1 ==> digit_val(#[trigger] s@[k]) is Some);
        } else {
            lemma_num_end_props(s@, m as int);
        }
    }
    let mut v: u64 = 0;
    let mut cur = m;
    while cur < e1
        invariant
            m <= cur <= e1,
            e1 <= s@.len(),
            e1 - m <= 10,
            forall|k: int| m <= k < e1 ==> digit_val(#[trigger] s@[k]) is Some,
            v as int == spec_num_val(s@, m as int, cur as int),
            v < pow10((cur - m) as nat),
        decreases e1 - cur,
    {
        let c = s.get_char(cur);
        let d = match digit_of(c) {
            Some(d) => d,
            None => 0,
        };
        proof {
            lemma_pow10_mono(((cur - m) as nat), 9);
            reveal_with_fuel(pow10, 11);
            assert(pow10(9) == 1000000000);
        }
        v = v * 10 + d;
        cur = cur + 1;
    }
    proof {
        lemma_pow10_mono(((e1 - m) as nat), 10);
        reveal_with_fuel(pow10, 11);
        assert(pow10(10) == 10000000000);
    }
    if neg {
        Some(-(v as i64))
    } else {
        Some(v as i64)
    }
}

/// The position after the quote closing a string body that starts at `i`
/// (just past the opening quote); a backslash escapes the character after it.
pub open spec fn spec_string_body_end(s: Seq<char>, i: int) -> Option<int>
    decreases s.len() - i,
{
    if !(0 <= i < s.len()) {
        None
    } else if s[i] == '"' {
        Some(i + 1)
    } else if s[i] == '\\' {
        if i + 1 < s.len() {
            spec_string_body_end(s, i + 2)
        } else {
            None
        }
    } else {
        spec_string_body_end(s, i + 1)
    }
}

proof fn lemma_string_body_bounds(s: Seq<char>, i: int)
    requires
        spec_string_body_end(s, i) is Some,
    ensures
        i < spec_string_body_end(s, i)->Some_0 <= s.len(),
    decreases s.len() - i,
{
    if s[i] == '"' {
    } else if s[i] == '\\' {
        lemma_string_body_bounds(s, i + 2);
    } else {
        lemma_string_body_bounds(s, i + 1);
    }
}

fn p_string_body_end(s: &str, i: usize) -> (r: Option<usize>)
    requires
        i <= s@.len(),
    ensures
        match spec_string_body_end(s@, i as int) {
            Some(p) => r matches Some(q) && q as int == p && i < q <= s@.len(),
            None => r is None,
        },
    decreases s@.len() - i,
{
    let n = s.unicode_len();
    if i >= n {
        return None;
    }
    let c = s.get_char(i);
    if c == '"' {
        Some(i + 1)
    } else if c == '\\' {
        if i + 1 < n {
            p_string_body_end(s, i + 2)
        } else {
            None
        }
    } else {
        p_string_body_end(s, i + 1)
    }
}

/// A key at `i`: a quoted string; its raw characters, escapes untouched, are
/// what the field names compare against.
pub open spec fn spec_key(s: Seq<char>, i: int) -> Option<(Seq<char>, int)> {
    if 0 <= i < s.len() && s[i] == '"' {
        match spec_string_body_end(s, i + 1) {
            Some(e) => Some((s.subrange(i + 1, e - 1), e)),
            None => None,
        }
    } else {
        None
    }
}

fn p_key(s: &str, i: usize) -> (r: Option<(String, usize)>)
    requires
        i <= s@.len(),
    ensures
        match spec_key(s@, i as int) {
            Some(p) => r matches Some(q) && q.0@ == p.0 && q.1 as int == p.1 && i < q.1
                <= s@.len(),
            None => r is None,
        },
{
    let n = s.unicode_len();
    if i < n && s.get_char(i) == '"' {
        match p_string_body_end(s, i + 1) {
            Some(e) => {
                let key = s.substring_char(i + 1, e - 1);
                Some((key.to_owned(), e))
            },
            None => None,
        }
    } else {
        None
    }
}

/// The position after one JSON value starting at `i`: a string, a number, a
/// literal, an array or an object. The bounds tests on positions handed back
/// by the blank-skipper always hold; they make termination of the mutual
/// recursion evident.
pub open spec fn spec_value_end(s: Seq<char>, i: int) -> Option<int>
    decreases s.len() - i, 0int,
{
    if !(0 <= i < s.len()) {
        None
    } else if s[i] == '"' {
        spec_string_body_end(s, i + 1)
    } else if s[i] == '-' || digit_val(s[i]) is Some {
        spec_number_end(s, i)
    } else if s[i] == 't' {
        if i + 4 <= s.len() && s.subrange(i, i + 4) == "true"@ {
            Some(i + 4)
        } else {
            None
        }
    } else if s[i] == 'f' {
        if i + 5 <= s.len() && s.subrange(i, i + 5) == "false"@ {
            Some(i + 5)
        } else {
            None
        }
    } else if s[i] == 'n' {
        if i + 4 <= s.len() && s.subrange(i, i + 4) == "null"@ {
            Some(i + 4)
        } else {
            None
        }
    } else if s[i] == '[' {
        let j = spec_ws(s, i + 1);
        if i < j && j < s.len() {
            if s[j] == ']' {
                Some(j + 1)
            } else {
                spec_elems_end(s, j)
            }
        } else {
            None
        }
    } else if s[i] == '{' {
        let j = spec_ws(s, i + 1);
        if i < j && j < s.len() {
            if s[j] == '}' {
                Some(j + 1)
            } else {
                spec_members_end(s, j)
            }
        } else {
            None
        }
    } else {
        None
    }
}

/// The elements of an array, from the first element after `[` or after a
/// comma: values separated by commas up to a closing `]`.
pub open spec fn spec_elems_end(s: Seq<char>, i: int) -> Option<int>
    decreases s.len() - i, 1int,
{
    match spec_value_end(s, i) {
        None => None,
        Some(j) => {
            let j2 = spec_ws(s, j);
            if 0 <= j2 < s.len() && s[j2] == ',' {
                let nxt = spec_ws(s, j2 + 1);
                if i < nxt && nxt <= s.len() {
                    spec_elems_end(s, nxt)
                } else {
                    None
                }
            } else if 0 <= j2 < s.len() && s[j2] == ']' {
                Some(j2 + 1)
            } else {
                None
            }
        },
    }
}

/// The members of an object, from the first key after `{` or after a comma:
/// `key: value` pairs separated by commas up to a closing `}`.
pub open spec fn spec_members_end(s: Seq<char>, i: int) -> Option<int>
    decreases s.len() - i, 1int,
{
    match spec_key(s, i) {
        None => None,
        Some((k, j)) => {
            let j2 = spec_ws(s, j);
            if 0 <= j2 < s.len() && s[j2] == ':' {
                let j3 = spec_ws(s, j2 + 1);
                if i < j3 && j3 <= s.len() {
                    match spec_value_end(s, j3) {
                        None => None,
                        Some(j4) => {
                            let j5 = spec_ws(s, j4);
                            if 0 <= j5 < s.len() && s[j5] == ',' {
                                let nxt = spec_ws(s, j5 + 1);
                                if i < nxt && nxt <= s.len() {
                                    spec_members_end(s, nxt)
                                } else {
                                    None
                                }
                            } else if 0 <= j5 < s.len() && s[j5] == '}' {
                                Some(j5 + 1)
                            } else {
                                None
                            }
                        },
                    }
                } else {
                    None
                }
            } else {
                None
            }
        },
    }
}

proof fn lemma_value_end_bounds(s: Seq<char>, i: int)
    requires
        spec_value_end(s, i) is Some,
    ensures
        i < spec_value_end(s, i)->Some_0 <= s.len(),
    decreases s.len() - i, 0int,
{
    if s[i] == '"' {
        lemma_string_body_bounds(s, i + 1);
    } else if s[i] == '-' || digit_val(s[i]) is Some {
        lemma_number_end_bounds(s, i);
    } else if s[i] == 't' || s[i] == 'f' || s[i] == 'n' {
    } else if s[i] == '[' {
        let j = spec_ws(s, i + 1);
        if i < j && j < s.len() && s[j] != ']' {
            lemma_elems_end_bounds(s, j);
        }
    } else if s[i] == '{' {
        let j = spec_ws(s, i + 1);
        if i < j && j < s.len() && s[j] != '}' {
            lemma_members_end_bounds(s, j);
        }
    }
}

proof fn lemma_elems_end_bounds(s: Seq<char>, i: int)
    requires
        spec_elems_end(s, i) is Some,
    ensures
        i < spec_elems_end(s, i)->Some_0 <= s.len(),
    decreases s.len() - i, 1int,
{
    lemma_value_end_bounds(s, i);
    let j = spec_value_end(s, i)->Some_0;
    lemma_ws_bounds(s, j);
    let j2 = spec_ws(s, j);
    if 0 <= j2 < s.len() && s[j2] == ',' {
        lemma_ws_bounds(s, j2 + 1);
        let nxt = spec_ws(s, j2 + 1);
        if i < nxt && nxt <= s.len() {
            lemma_elems_end_bounds(s, nxt);
        }
    }
}

proof fn lemma_members_end_bounds(s: Seq<char>, i: int)
    requires
        spec_members_end(s, i) is Some,
    ensures
        i < spec_members_end(s, i)->Some_0 <= s.len(),
    decreases s.len() - i, 1int,
{
    let (k, j) = spec_key(s, i)->Some_0;
    lemma_string_body_bounds(s, i + 1);
    lemma_ws_bounds(s, j);
    let j2 = spec_ws(s, j);
    if 0 <= j2 < s.len() && s[j2] == ':' {
        lemma_ws_bounds(s, j2 + 1);
        let j3 = spec_ws(s, j2 + 1);
        if i < j3 && j3 <= s.len() {
            lemma_value_end_bounds(s, j3);
            let j4 = spec_value_end(s, j3)->Some_0;
            lemma_ws_bounds(s, j4);
            let j5 = spec_ws(s, j4);
            if 0 <= j5 < s.len() && s[j5] == ',' {
                lemma_ws_bounds(s, j5 + 1);
                let nxt = spec_ws(s, j5 + 1);
                if i < nxt && nxt <= s.len() {
                    lemma_members_end_bounds(s, nxt);
                }
            }
        }
    }
}

fn p_value_end(s: &str, i: usize) -> (r: Option<usize>)
    requires
        i <= s@.len(),
    ensures
        match spec_value_end(s@, i as int) {
            Some(p) => r matches Some(q) && q as int == p && i < q <= s@.len(),
            None => r is None,
        },
    decreases s@.len() - i, 0int,
{
    let n = s.unicode_len();
    if i >= n {
        return None;
    }
    let c = s.get_char(i);
    if c == '"' {
        p_string_body_end(s, i + 1)
    } else if c == '-' || digit_of(c).is_some() {
        p_number_end(s, i)
    } else if c == 't' {
        if n - i >= 4 && str_eq(s.substring_char(i, i + 4), "true") {
            Some(i + 4)
        } else {
            None
        }
    } else if c == 'f' {
        if n - i >= 5 && str_eq(s.substring_char(i, i + 5), "false") {
            Some(i + 5)
        } else {
            None
        }
    } else if c == 'n' {
        if n - i >= 4 && str_eq(s.substring_char(i, i + 4), "null") {
            Some(i + 4)
        } else {
            None
        }
    } else if c == '[' {
        let j = p_ws(s, i + 1);
        if j < n {
            if s.get_char(j) == ']' {
                Some(j + 1)
            } else {
                p_elems_end(s, j)
            }
        } else {
            None
        }
    } else if c == '{' {
        let j = p_ws(s, i + 1);
        if j < n {
            if s.get_char(j) == '}' {
                Some(j + 1)
            } else {
                p_members_end(s, j)
            }
        } else {
            None
        }
    } else {
        None
    }
}

fn p_elems_end(s: &str, i: usize) -> (r: Option<usize>)
    requires
        i <= s@.len(),
    ensures
        match spec_elems_end(s@, i as int) {
            Some(p) => r matches Some(q) && q as int == p && i < q <= s@.len(),
            None => r is None,
        },
    decreases s@.len() - i, 1int,
{
    match p_value_end(s, i) {
        None => None,
        Some(j) => {
            let j2 = p_ws(s, j);
            let n = s.unicode_len();
            if j2 < n {
                let c = s.get_char(j2);
                if c == ',' {
                    let nxt = p_ws(s, j2 + 1);
                    p_elems_end(s, nxt)
                } else if c == ']' {
                    Some(j2 + 1)
                } else {
                    None
                }
            } else {
                None
            }
        },
    }
}

fn p_members_end(s: &str, i: usize) -> (r: Option<usize>)
    requires
        i <= s@.len(),
    ensures
        match spec_members_end(s@, i as int) {
            Some(p) => r matches Some(q) && q as int == p && i < q <= s@.len(),
            None => r is None,
        },
    decreases s@.len() - i, 1int,
{
    match p_key(s, i) {
        None => None,
        Some((k, j)) => {
            let j2 = p_ws(s, j);
            let n = s.unicode_len();
            if j2 < n && s.get_char(j2) == ':' {
                let j3 = p_ws(s, j2 + 1);
                match p_value_end(s, j3) {
                    None => None,
                    Some(j4) => {
                        let j5 = p_ws(s, j4);
                        if j5 < n {
                            let c = s.get_char(j5);
                            if c == ',' {
                                let nxt = p_ws(s, j5 + 1);
                                p_members_end(s, nxt)
                            } else if c == '}' {
                                Some(j5 + 1)
                            } else {
                                None
                            }
                        } else {
                            None
                        }
                    },
                }
            } else {
                None
            }
        },
    }
}

/// A key-value pair at `i`: a key, a colon, any JSON value, with blanks
/// allowed around the colon. The middle component is the value's integer
/// reading where it has one, which only `screen` and `id` require.
pub open spec fn spec_pair(s: Seq<char>, i: int) -> Option<(Seq<char>, Option<int>, int)> {
    match spec_key(s, i) {
        None => None,
        Some((k, j)) => {
            let j2 = spec_ws(s, j);
            if 0 <= j2 < s.len() && s[j2] == ':' {
                let j3 = spec_ws(s, j2 + 1);
                match spec_value_end(s, j3) {
                    Some(j4) => Some((k, spec_int_value(s, j3), j4)),
                    None => None,
                }
            } else {
                None
            }
        },
    }
}

proof fn lemma_pair_bounds(s: Seq<char>, i: int)
    requires
        0 <= i <= s.len(),
        spec_pair(s, i) is Some,
    ensures
        i < spec_pair(s, i)->Some_0.2 <= s.len(),
{
    let (k, j) = spec_key(s, i)->Some_0;
    lemma_string_body_bounds(s, i + 1);
    assert(i + 2 <= j <= s.len());
    lemma_ws_bounds(s, j);
    let j2 = spec_ws(s, j);
    lemma_ws_bounds(s, j2 + 1);
    let j3 = spec_ws(s, j2 + 1);
    lemma_value_end_bounds(s, j3);
}

fn p_pair(s: &str, i: usize) -> (r: Option<(String, Option<i64>, usize)>)
    requires
        i <= s@.len(),
    ensures
        match spec_pair(s@, i as int) {
            Some(p) => r matches Some(q) && q.0@ == p.0 && oint(q.1) == p.1 && q.2 as int == p.2
                && i < q.2 <= s@.len(),
            None => r is None,
        },
{
    match p_key(s, i) {
        None => None,
        Some((k, j)) => {
            let j2 = p_ws(s, j);
            let n = s.unicode_len();
            if j2 < n && s.get_char(j2) == ':' {
                let j3 = p_ws(s, j2 + 1);
                match p_value_end(s, j3) {
                    None => None,
                    Some(j4) => {
                        let v = p_int_value(s, j3);
                        Some((k, v, j4))
                    },
                }
            } else {
                None
            }
        },
    }
}

/// The fields of an object, from the first pair after `{` or after a comma:
/// pairs separated by commas up to a closing `}`. Each of `screen` and `id`
/// must appear exactly once and hold a plain integer, `id` within an
/// unsigned and `screen` within a signed 32-bit range; other keys are
/// ignored, whatever JSON value they hold.
pub open spec fn spec_obj_fields(
    s: Seq<char>,
    i: int,
    screen: Option<int>,
    id: Option<int>,
) -> Option<(DesktopInfo, int)>
    decreases s.len() - i,
    via spec_obj_fields_dec
{
    match spec_pair(s, i) {
        None => None,
        Some((k, v, j)) => {
            if (k == "screen"@ || k == "id"@) && v is None {
                None
            } else if (k == "screen"@ && screen is Some) || (k == "id"@ && id is Some) {
                None
            } else {
                let screen2 = if k == "screen"@ {
                    v
                } else {
                    screen
                };
                let id2 = if k == "id"@ {
                    v
                } else {
                    id
                };
                let j2 = spec_ws(s, j);
                if 0 <= j2 < s.len() && s[j2] == ',' {
                    spec_obj_fields(s, spec_ws(s, j2 + 1), screen2, id2)
                } else if 0 <= j2 < s.len() && s[j2] == '}' {
                    match (screen2, id2) {
                        (Some(sc), Some(idv)) => if 0 <= idv <= 4294967295 && -2147483648 <= sc
                            <= 2147483647 {
                            Some((DesktopInfo { screen: sc, id: idv }, j2 + 1))
                        } else {
                            None
                        },
                        _ => None,
                    }
                } else {
                    None
                }
            }
        },
    }
}

#[via_fn]
proof fn spec_obj_fields_dec(s: Seq<char>, i: int, screen: Option<int>, id: Option<int>) {
    if spec_pair(s, i) is Some {
        assert(0 <= i <= s.len());
        lemma_pair_bounds(s, i);
        let j = spec_pair(s, i)->Some_0.2;
        lemma_ws_bounds(s, j);
        let j2 = spec_ws(s, j);
        if j2 < s.len() {
            lemma_ws_bounds(s, j2 + 1);
        }
    }
}

proof fn lemma_obj_fields_bounds(s: Seq<char>, i: int, screen: Option<int>, id: Option<int>)
    requires
        spec_obj_fields(s, i, screen, id) is Some,
    ensures
        i < spec_obj_fields(s, i, screen, id)->Some_0.1 <= s.len(),
    decreases s.len() - i,
{
    assert(0 <= i <= s.len());
    lemma_pair_bounds(s, i);
    let (k, v, j) = spec_pair(s, i)->Some_0;
    lemma_ws_bounds(s, j);
    let j2 = spec_ws(s, j);
    if j2 < s.len() && s[j2] == ',' {
        lemma_ws_bounds(s, j2 + 1);
        let screen2 = if k == "screen"@ {
            v
        } else {
            screen
        };
        let id2 = if k == "id"@ {
            v
        } else {
            id
        };
        lemma_obj_fields_bounds(s, spec_ws(s, j2 + 1), screen2, id2);
    }
}

fn p_obj_fields(s: &str, i: usize, screen: Option<i64>, id: Option<i64>) -> (r: Option<
    (KdeDesktop, usize),
>)
    requires
        i <= s@.len(),
    ensures
        match spec_obj_fields(s@, i as int, oint(screen), oint(id)) {
            Some(p) => r matches Some(q) && q.0@ == p.0 && q.1 as int == p.1 && i < q.1
                <= s@.len(),
            None => r is None,
        },
    decreases s@.len() - i,
{
    match p_pair(s, i) {
        None => None,
        Some((k, v, j)) => {
            let k_is_screen = str_eq(k.as_str(), "screen");
            let k_is_id = str_eq(k.as_str(), "id");
            if (k_is_screen || k_is_id) && v.is_none() {
                return None;
            }
            if (k_is_screen && screen.is_some()) || (k_is_id && id.is_some()) {
                return None;
            }
            let screen2 = if k_is_screen {
                v
            } else {
                screen
            };
            let id2 = if k_is_id {
                v
            } else {
                id
            };
            let j2 = p_ws(s, j);
            let n = s.unicode_len();
            if j2 < n {
                let c = s.get_char(j2);
                if c == ',' {
                    let j3 = p_ws(s, j2 + 1);
                    return p_obj_fields(s, j3, screen2, id2);
                } else if c == '}' {
                    match (screen2, id2) {
                        (Some(sc), Some(idv)) => {
                            if 0 <= idv && idv <= 4294967295 && -2147483648 <= sc
                                && sc <= 2147483647 {
                                return Some(
                                    (KdeDesktop { screen: sc, id: idv as u64 }, j2 + 1),
                                );
                            } else {
                                return None;
                            }
                        },
                        _ => {
                            return None;
                        },
                    }
                }
            }
            None
        },
    }
}

/// An `Option` of a machine integer as an `Option` of its value.
pub open spec fn oint(o: Option<i64>) -> Option<int> {
    match o {
        Some(v) => Some(v as int),
        None => None,
    }
}

/// An object at `i`: `{`, its fields, `}`.
pub open spec fn spec_obj(s: Seq<char>, i: int) -> Option<(DesktopInfo, int)> {
    if 0 <= i < s.len() && s[i] == '{' {
        spec_obj_fields(s, spec_ws(s, i + 1), None, None)
    } else {
        None
    }
}

proof fn lemma_obj_bounds(s: Seq<char>, i: int)
    requires
        spec_obj(s, i) is Some,
    ensures
        i < spec_obj(s, i)->Some_0.1 <= s.len(),
{
    lemma_ws_bounds(s, i + 1);
    lemma_obj_fields_bounds(s, spec_ws(s, i + 1), None, None);
}

fn p_obj(s: &str, i: usize) -> (r: Option<(KdeDesktop, usize)>)
    requires
        i <= s@.len(),
    ensures
        match spec_obj(s@, i as int) {
            Some(p) => r matches Some(q) && q.0@ == p.0 && q.1 as int == p.1 && i < q.1
                <= s@.len(),
            None => r is None,
        },
{
    let n = s.unicode_len();
    if i < n && s.get_char(i) == '{' {
        let j = p_ws(s, i + 1);
        p_obj_fields(s, j, None, None)
    } else {
        None
    }
}

/// The objects of the array, from the first object after `[` or after a
/// comma: objects separated by commas up to a closing `]`, appended to `acc`.
pub open spec fn spec_objs(s: Seq<char>, i: int, acc: Seq<DesktopInfo>) -> Option<
    (Seq<DesktopInfo>, int),
>
    decreases s.len() - i,
    via spec_objs_dec
{
    match spec_obj(s, i) {
        None => None,
        Some((d, j)) => {
            let j2 = spec_ws(s, j);
            if 0 <= j2 < s.len() && s[j2] == ',' {
                spec_objs(s, spec_ws(s, j2 + 1), acc.push(d))
            } else if 0 <= j2 < s.len() && s[j2] == ']' {
                Some((acc.push(d), j2 + 1))
            } else {
                None
            }
        },
    }
}

#[via_fn]
proof fn spec_objs_dec(s: Seq<char>, i: int, acc: Seq<DesktopInfo>) {
    if spec_obj(s, i) is Some {
        lemma_obj_bounds(s, i);
        let j = spec_obj(s, i)->Some_0.1;
        lemma_ws_bounds(s, j);
        let j2 = spec_ws(s, j);
        if j2 < s.len() {
            lemma_ws_bounds(s, j2 + 1);
        }
    }
}

fn p_objs(s: &str, i: usize, acc: Vec<KdeDesktop>) -> (r: Option<(Vec<KdeDesktop>, usize)>)
    requires
        i <= s@.len(),
    ensures
        match spec_objs(s@, i as int, acc@.map_values(|d: KdeDesktop| d@)) {
            Some(p) => r matches Some(q) && q.0@.map_values(|d: KdeDesktop| d@) == p.0 && q.1
                as int == p.1 && q.1 <= s@.len(),
            None => r is None,
        },
    decreases s@.len() - i,
{
    let ghost acc0 = acc@.map_values(|d: KdeDesktop| d@);
    match p_obj(s, i) {
        None => None,
        Some((d, j)) => {
            let ghost dv = d@;
            let j2 = p_ws(s, j);
            let n = s.unicode_len();
            let mut acc2 = acc;
            acc2.push(d);
            proof {
                assert(acc2@.map_values(|d: KdeDesktop| d@) =~= acc0.push(dv));
            }
            if j2 < n {
                let c = s.get_char(j2);
                if c == ',' {
                    let j3 = p_ws(s, j2 + 1);
                    return p_objs(s, j3, acc2);
                } else if c == ']' {
                    return Some((acc2, j2 + 1));
                }
            }
            None
        },
    }
}

/// The whole reply: blanks, `[`, either nothing or objects, `]`, blanks, and
/// nothing further. `None` is a malformed reply.
pub open spec fn spec_reply(s: Seq<char>) -> Option<Seq<DesktopInfo>> {
    let i = spec_ws(s, 0);
    if 0 <= i < s.len() && s[i] == '[' {
        let j = spec_ws(s, i + 1);
        if 0 <= j < s.len() && s[j] == ']' {
            if spec_ws(s, j + 1) == s.len() {
                Some(Seq::empty())
            } else {
                None
            }
        } else {
            match spec_objs(s, j, Seq::empty()) {
                Some((ds, k)) => if spec_ws(s, k) == s.len() {
                    Some(ds)
                } else {
                    None
                },
                None => None,
            }
        }
    } else {
        None
    }
}

fn parse_desktops(reply: &str) -> (r: Option<Vec<KdeDesktop>>)
    ensures
        match spec_reply(reply@) {
            Some(ds) => r matches Some(v) && v@.map_values(|d: KdeDesktop| d@) == ds,
            None => r is None,
        },
{
    let n = reply.unicode_len();
    let i = p_ws(reply, 0);
    if i < n && reply.get_char(i) == '[' {
        let j = p_ws(reply, i + 1);
        if j < n && reply.get_char(j) == ']' {
            let k = p_ws(reply, j + 1);
            if k == n {
                let empty: Vec<KdeDesktop> = Vec::new();
                proof {
                    assert(empty@.map_values(|d: KdeDesktop| d@) =~= Seq::<DesktopInfo>::empty());
                }
                Some(empty)
            } else {
                None
            }
        } else {
            let start: Vec<KdeDesktop> = Vec::new();
            proof {
                assert(start@.map_values(|d: KdeDesktop| d@) =~= Seq::<DesktopInfo>::empty());
            }
            match p_objs(reply, j, start) {
                Some((ds, k)) => {
                    let k2 = p_ws(reply, k);
                    if k2 == n {
                        Some(ds)
                    } else {
                        None
                    }
                },
                None => None,
            }
        }
    } else {
        None
    }
}

/// The screens denoted by the reply's desktop records: one per record with a
/// non-negative display index, named by the desktop id's decimal rendering,
/// with no wallpaper or mode (the query does not read them) and active.
pub open spec fn spec_kde_screens(ds: Seq<DesktopInfo>) -> Seq<ScreenSpec> {
    ds.filter_map(
        |d: DesktopInfo|
            if d.screen >= 0 {
                Some(ScreenSpec { name: spec_dec(d.id), wallpaper: None, mode: None, active: true })
            } else {
                None
            },
    )
}

/// Parses the desktop shell's reply to the enumeration script into screens:
/// one per desktop whose display index is non-negative, carrying the desktop
/// id as its name and nothing else. A reply outside the grammar is the
/// `MalformedResponse` error.
pub fn get_screens(reply: &str) -> (r: Result<Vec<Screen>, WallpaperError>)
    ensures
        match spec_reply(reply@) {
            Some(ds) => r matches Ok(v) && v@.map_values(|s: Screen| s@) == spec_kde_screens(ds),
            None => r matches Err(e) && e matches WallpaperError::MalformedResponse,
        },
{
    let ghost f = |d: DesktopInfo|
        if d.screen >= 0 {
            Some(ScreenSpec { name: spec_dec(d.id), wallpaper: None, mode: None, active: true })
        } else {
            None
        };
    match parse_desktops(reply) {
        None => Err(WallpaperError::MalformedResponse),
        Some(ds) => {
            let ghost dseq = ds@.map_values(|d: KdeDesktop| d@);
            let mut screens: Vec<Screen> = Vec::new();
            let mut i: usize = 0;
            proof {
                assert(dseq.take(0).filter_map(f) =~= Seq::<ScreenSpec>::empty());
                assert(screens@.map_values(|s: Screen| s@) =~= Seq::<ScreenSpec>::empty());
            }
            while i < ds.len()
                invariant
                    dseq == ds@.map_values(|d: KdeDesktop| d@),
                    f == (|d: DesktopInfo|
                        if d.screen >= 0 {
                            Some(
                                ScreenSpec {
                                    name: spec_dec(d.id),
                                    wallpaper: None,
                                    mode: None,
                                    active: true,
                                },
                            )
                        } else {
                            None
                        }),
                    i <= ds@.len(),
                    dseq.len() == ds@.len(),
                    screens@.map_values(|s: Screen| s@) == dseq.take(i as int).filter_map(f),
                decreases ds@.len() - i,
            {
                proof {
                    dseq.lemma_filter_map_take_succ(f, i as int);
                    assert(dseq[i as int] == ds@[i as int]@);
                }
                let ghost prev = screens@.map_values(|s: Screen| s@);
                let d = &ds[i];
                if d.screen >= 0 {
                    let name = u64_to_string(d.id);
                    screens.push(Screen { name, wallpaper: None, mode: None, active: true });
                    proof {
                        assert(screens@.map_values(|s: Screen| s@) =~= dseq.take(
                            i + 1,
                        ).filter_map(f));
                    }
                } else {
                    proof {
                        assert(dseq.take(i + 1).filter_map(f) =~= prev);
                    }
                }
                i = i + 1;
            }
            proof {
                assert(dseq.take(dseq.len() as int) =~= dseq);
            }
            Ok(screens)
        },
    }
}

/// The script sent to the desktop shell to enumerate its desktops.
pub fn desktops_query() -> (r: &'static str)
    ensures
        r@ == "print(JSON.stringify(desktops()));"@,
{
    "print(JSON.stringify(desktops()));"
}

/// How one character is written inside a quoted script string: quotes,
/// backslashes and blank control characters are escaped, anything else
/// stands as it is.
pub open spec fn spec_escape_char(c: char) -> Seq<char> {
    if c == '"' {
        seq!['\\', '"']
    } else if c == '\\' {
        seq!['\\', '\\']
    } else if c == '\n' {
        seq!['\\', 'n']
    } else if c == '\t' {
        seq!['\\', 't']
    } else if c == '\r' {
        seq!['\\', 'r']
    } else {
        seq![c]
    }
}

/// A string written inside a quoted script string, character by character.
pub open spec fn spec_escaped(w: Seq<char>) -> Seq<char>
    decreases w.len(),
{
    if w.len() == 0 {
        Seq::empty()
    } else {
        spec_escape_char(w[0]) + spec_escaped(w.skip(1))
    }
}

/// A string as a quoted script literal.
pub open spec fn spec_quoted(w: Seq<char>) -> Seq<char> {
    seq!['"'] + spec_escaped(w) + seq!['"']
}

proof fn lemma_escaped_push(w: Seq<char>, c: char)
    ensures
        spec_escaped(w.push(c)) == spec_escaped(w) + spec_escape_char(c),
    decreases w.len(),
{
    if w.len() == 0 {
        reveal_with_fuel(spec_escaped, 2);
        assert(w.push(c).skip(1) =~= Seq::<char>::empty());
        assert(w.push(c)[0] == c);
        assert(spec_escaped(w.push(c)) =~= spec_escaped(w) + spec_escape_char(c));
    } else {
        assert(w.push(c).skip(1) =~= w.skip(1).push(c));
        lemma_escaped_push(w.skip(1), c);
        assert(w.push(c)[0] == w[0]);
        assert(spec_escaped(w.push(c)) =~= spec_escaped(w) + spec_escape_char(c));
    }
}

fn append_escaped(out: &mut String, w: &str)
    ensures
        final(out)@ == old(out)@ + spec_escaped(w@),
{
    let n = w.unicode_len();
    let mut i: usize = 0;
    proof {
        assert(w@.take(0) =~= Seq::<char>::empty());
        assert(out@ =~= old(out)@ + spec_escaped(w@.take(0)));
    }
    while i < n
        invariant
            n == w@.len(),
            i <= n,
            out@ == old(out)@ + spec_escaped(w@.take(i as int)),
        decreases n - i,
    {
        let c = w.get_char(i);
        if c == '"' {
            proof {
                reveal_strlit("\\\"");
                assert("\\\""@ =~= spec_escape_char(c));
            }
            out.append("\\\"");
        } else if c == '\\' {
            proof {
                reveal_strlit("\\\\");
                assert("\\\\"@ =~= spec_escape_char(c));
            }
            out.append("\\\\");
        } else if c == '\n' {
            proof {
                reveal_strlit("\\n");
                assert("\\n"@ =~= spec_escape_char(c));
            }
            out.append("\\n");
        } else if c == '\t' {
            proof {
                reveal_strlit("\\t");
                assert("\\t"@ =~= spec_escape_char(c));
            }
            out.append("\\t");
        } else if c == '\r' {
            proof {
                reveal_strlit("\\r");
                assert("\\r"@ =~= spec_escape_char(c));
            }
            out.append("\\r");
        } else {
            let one = w.substring_char(i, i + 1);
            proof {
                assert(one@ =~= spec_escape_char(c));
            }
            out.append(one);
        }
        proof {
            assert(w@.take(i + 1) =~= w@.take(i as int).push(w@[i as int]));
            lemma_escaped_push(w@.take(i as int), w@[i as int]);
            assert(out@ =~= old(out)@ + spec_escaped(w@.take(i + 1)));
        }
        i = i + 1;
    }
    proof {
        assert(w@.take(n as int) =~= w@);
    }
}

/// The opening of the wallpaper-setting script: walk all desktops with the
/// image plugin's configuration group selected.
pub open spec fn spec_script_header() -> Seq<char> {
    "\nfor (const desktop of desktops()) {\n\tdesktop.currentConfigGroup = [\"Wallpaper\", \"org.kde.image\", \"General\"];"@
}

/// One screen's block of the script: matched by desktop id, it writes the
/// fill-mode code and the quoted wallpaper path.
pub open spec fn spec_screen_block(s: ScreenSpec) -> Seq<char>
    recommends
        s.mode is Some,
        s.wallpaper is Some,
{
    "\n\tif (desktop.id === "@ + s.name + "){\n\t\tdesktop.writeConfig(\"FillMode\", "@
        + spec_dec(spec_kde_mode_code(s.mode->Some_0))
        + ");\n\t\tdesktop.writeConfig(\"Image\", "@ + spec_quoted(s.wallpaper->Some_0)
        + ");\n\t}"@
}

/// The blocks of all screens, in order.
pub open spec fn spec_blocks(screens: Seq<ScreenSpec>) -> Seq<char>
    decreases screens.len(),
{
    if screens.len() == 0 {
        Seq::empty()
    } else {
        spec_screen_block(screens[0]) + spec_blocks(screens.skip(1))
    }
}

proof fn lemma_blocks_push(ss: Seq<ScreenSpec>, x: ScreenSpec)
    ensures
        spec_blocks(ss.push(x)) == spec_blocks(ss) + spec_screen_block(x),
    decreases ss.len(),
{
    if ss.len() == 0 {
        reveal_with_fuel(spec_blocks, 2);
        assert(ss.push(x).skip(1) =~= Seq::<ScreenSpec>::empty());
        assert(ss.push(x)[0] == x);
        assert(spec_blocks(ss.push(x)) =~= spec_blocks(ss) + spec_screen_block(x));
    } else {
        assert(ss.push(x).skip(1) =~= ss.skip(1).push(x));
        lemma_blocks_push(ss.skip(1), x);
        assert(ss.push(x)[0] == ss[0]);
        assert(spec_blocks(ss.push(x)) =~= spec_blocks(ss) + spec_screen_block(x));
    }
}

/// Whether every screen carries both a mode and a wallpaper, which the
/// setting script requires.
pub open spec fn spec_all_complete(ss: Seq<ScreenSpec>) -> bool {
    forall|k: int| 0 <= k < ss.len() ==> (#[trigger] ss[k]).mode is Some && ss[k].wallpaper is Some
}

/// The whole wallpaper-setting script.
pub open spec fn spec_set_script(ss: Seq<ScreenSpec>) -> Seq<char> {
    spec_script_header() + spec_blocks(ss) + "\n}"@
}

/// Builds the script that applies each screen's wallpaper and fill mode in
/// one round trip: one block per screen, matched by desktop id. A screen
/// without a mode or a wallpaper is the `MissingRequiredField` error, and no
/// script is produced.
pub fn build_set_script(screens: &Vec<Screen>) -> (r: Result<String, WallpaperError>)
    ensures
        match r {
            Ok(script) => spec_all_complete(screens@.map_values(|s: Screen| s@)) && script@
                == spec_set_script(screens@.map_values(|s: Screen| s@)),
            Err(e) => !spec_all_complete(screens@.map_values(|s: Screen| s@)) && e matches
                WallpaperError::MissingRequiredField,
        },
{
    let ghost sv = screens@.map_values(|s: Screen| s@);
    let mut out = String::from_str(
        "\nfor (const desktop of desktops()) {\n\tdesktop.currentConfigGroup = [\"Wallpaper\", \"org.kde.image\", \"General\"];",
    );
    let mut i: usize = 0;
    proof {
        assert(spec_blocks(sv.take(0)) =~= Seq::<char>::empty());
        assert(out@ =~= spec_script_header() + spec_blocks(sv.take(0)));
    }
    while i < screens.len()
        invariant
            sv == screens@.map_values(|s: Screen| s@),
            sv.len() == screens@.len(),
            i <= screens@.len(),
            forall|k: int| 0 <= k < i ==> (#[trigger] sv[k]).mode is Some && sv[k].wallpaper
                is Some,
            out@ == spec_script_header() + spec_blocks(sv.take(i as int)),
        decreases screens@.len() - i,
    {
        proof {
            assert(sv[i as int] == screens@[i as int]@);
        }
        let scr = &screens[i];
        let m = match scr.mode {
            Some(m) => m,
            None => {
                proof {
                    assert(sv[i as int].mode is None);
                }
                return Err(WallpaperError::MissingRequiredField);
            },
        };
        let w = match &scr.wallpaper {
            Some(w) => w,
            None => {
                proof {
                    assert(sv[i as int].wallpaper is None);
                }
                return Err(WallpaperError::MissingRequiredField);
            },
        };
        out.append("\n\tif (desktop.id === ");
        out.append(scr.name.as_str());
        out.append("){\n\t\tdesktop.writeConfig(\"FillMode\", ");
        let code = u64_to_string(kde_mode_code(m) as u64);
        out.append(code.as_str());
        out.append(");\n\t\tdesktop.writeConfig(\"Image\", ");
        out.append("\"");
        append_escaped(&mut out, w.as_str());
        out.append("\"");
        out.append(");\n\t}");
        proof {
            reveal_strlit("\"");
            assert("\""@ =~= seq!['"']);
            assert(sv.take(i + 1) =~= sv.take(i as int).push(sv[i as int]));
            lemma_blocks_push(sv.take(i as int), sv[i as int]);
            assert(out@ =~= spec_script_header() + spec_blocks(sv.take(i + 1)));
        }
        i = i + 1;
    }
    out.append("\n}");
    proof {
        assert(sv.take(sv.len() as int) =~= sv);
        assert(out@ =~= spec_set_script(sv));
    }
    Ok(out)
}

} // verus!
