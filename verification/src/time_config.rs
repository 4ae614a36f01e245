//! Reading a time setting of the configuration file: a decimal number of seconds that
//! must lie between one second and one hour.

use vstd::prelude::*;

use crate::decimal::{
    all_digits, digits_value, lemma_far_scale_out_of_range, lemma_ns_floor_in_range, ns_floor, ns_in_range, scale_to_ns,
};

verus! {

/// Shortest time a setting may hold, in nanoseconds (one second).
pub const MIN_TIME: i64 = 1_000_000_000;

/// Longest time a setting may hold, in nanoseconds (one hour).
pub const MAX_TIME: i64 = 3_600_000_000_000;

/// Exponents are read up to this magnitude; larger ones are out of range whatever the digits.
pub const EXP_CAP: u128 = 0x4_0000_0000_0000_0000;

pub open spec fn is_digit_char(c: char) -> bool {
    48 <= c as u32 && c as u32 <= 57
}

pub open spec fn digit_of(c: char) -> u8 {
    (c as u32 - 48) as u8
}

/// The digit values of a run of digit characters.
pub open spec fn digit_seq(cs: Seq<char>) -> Seq<u8> {
    cs.map_values(|c: char| digit_of(c))
}

/// End of the maximal run of digit characters that starts at `i`.
pub open spec fn digit_run_end(s: Seq<char>, i: int) -> int
    decreases s.len() - i,
{
    if 0 <= i < s.len() && is_digit_char(s[i]) {
        digit_run_end(s, i + 1)
    } else {
        i
    }
}

/// `1` where a `+` or `-` stands at `i`, else `0`.
pub open spec fn sign_len(s: Seq<char>, i: int) -> int {
    if 0 <= i < s.len() && (s[i] == '+' || s[i] == '-') {
        1
    } else {
        0
    }
}

/// A decimal number `[+-] digits [. digits] [(e|E) [+-] digits]`, taken apart.
pub struct DecimalLiteral {
    pub negative: bool,
    /// The digits before and after the point, in order.
    pub digits: Seq<u8>,
    /// How many of `digits` stand after the point.
    pub frac_len: nat,
    pub exp_negative: bool,
    pub exp_digits: Seq<u8>,
}

impl DecimalLiteral {
    pub open spec fn exponent(self) -> int {
        if self.exp_negative {
            -digits_value(self.exp_digits)
        } else {
            digits_value(self.exp_digits) as int
        }
    }
}

/// The finite numbers of the grammar that `f64::from_str` accepts:
/// `Sign? (Digit+ | Digit+ '.' Digit* | Digit* '.' Digit+) (('e' | 'E') Sign? Digit+)?`.
pub open spec fn parse_decimal(s: Seq<char>) -> Option<DecimalLiteral> {
    let n = s.len() as int;
    let p0 = sign_len(s, 0);
    let i1 = digit_run_end(s, p0);
    let has_dot = i1 < n && s[i1] == '.';
    let f0 = if has_dot { i1 + 1 } else { i1 };
    let f1 = digit_run_end(s, f0);
    if i1 == p0 && f1 == f0 {
        None
    } else {
        let negative = p0 == 1 && s[0] == '-';
        let digits = digit_seq(s.subrange(p0, i1) + s.subrange(f0, f1));
        let frac_len = (f1 - f0) as nat;
        if f1 == n {
            Some(
                DecimalLiteral {
                    negative,
                    digits,
                    frac_len,
                    exp_negative: false,
                    exp_digits: Seq::empty(),
                },
            )
        } else if s[f1] == 'e' || s[f1] == 'E' {
            let x0 = f1 + 1;
            let x1 = x0 + sign_len(s, x0);
            let x2 = digit_run_end(s, x1);
            if x1 < x2 && x2 == n {
                Some(
                    DecimalLiteral {
                        negative,
                        digits,
                        frac_len,
                        exp_negative: x1 > x0 && s[x0] == '-',
                        exp_digits: digit_seq(s.subrange(x1, x2)),
                    },
                )
            } else {
                None
            }
        } else {
            None
        }
    }
}

pub open spec fn ascii_lower(c: char) -> char {
    if 65 <= c as u32 && c as u32 <= 90 {
        (c as u32 + 32) as char
    } else {
        c
    }
}

/// `inf`, `infinity` or `nan` in any case, after an optional sign: numbers to
/// `f64::from_str`, never in range.
pub open spec fn is_inf_or_nan(s: Seq<char>) -> bool {
    let w = s.skip(sign_len(s, 0)).map_values(|c: char| ascii_lower(c));
    w == seq!['i', 'n', 'f'] || w == seq!['i', 'n', 'f', 'i', 'n', 'i', 't', 'y'] || w == seq![
        'n',
        'a',
        'n',
    ]
}

/// What a time setting holds.
#[derive(PartialEq, Eq, Structural, Debug, Clone, Copy)]
pub enum TimeConfig {
    /// A number of seconds in range, as whole nanoseconds (rounded down).
    Valid(i64),
    /// A number, but below one second or above one hour.
    OutOfRange,
    /// Not a number.
    Invalid,
}

/// The meaning of a time setting, by the exact decimal value of what it holds.
pub open spec fn time_config_of(s: Seq<char>) -> TimeConfig {
    match parse_decimal(s) {
        Some(lit) => {
            let n = digits_value(lit.digits);
            let scale = lit.exponent() - lit.frac_len + 9;
            if !lit.negative && ns_in_range(n, scale) {
                TimeConfig::Valid(ns_floor(n, scale) as i64)
            } else {
                TimeConfig::OutOfRange
            }
        },
        None => if is_inf_or_nan(s) {
            TimeConfig::OutOfRange
        } else {
            TimeConfig::Invalid
        },
    }
}


pub proof fn lemma_digit_run_end(s: Seq<char>, i: int)
    requires
        0 <= i <= s.len(),
    ensures
        i <= digit_run_end(s, i) <= s.len(),
        forall|k: int| i <= k < digit_run_end(s, i) ==> is_digit_char(#[trigger] s[k]),
        digit_run_end(s, i) == s.len() || !is_digit_char(s[digit_run_end(s, i)]),
    decreases s.len() - i,
{
    if i < s.len() && is_digit_char(s[i]) {
        lemma_digit_run_end(s, i + 1);
    }
}

proof fn lemma_digit_seq_digits(cs: Seq<char>)
    requires
        forall|k: int| 0 <= k < cs.len() ==> is_digit_char(#[trigger] cs[k]),
    ensures
        all_digits(digit_seq(cs)),
        digit_seq(cs).len() == cs.len(),
{
    assert forall|k: int| 0 <= k < digit_seq(cs).len() implies #[trigger] digit_seq(cs)[k] < 10 by {
        assert(is_digit_char(cs[k]));
    }
}

/// The characters of a string, in order.
pub(crate) fn chars_of(s: &str) -> (v: Vec<char>)
    ensures
        v@ == s@,
{
    let n = s.unicode_len();
    let mut v: Vec<char> = Vec::new();
    let mut i: usize = 0;
    while i < n
        invariant
            n == s@.len(),
            i <= n,
            v@ == s@.subrange(0, i as int),
        decreases n - i,
    {
        v.push(s.get_char(i));
        i = i + 1;
        proof {
            assert(v@ =~= s@.subrange(0, i as int));
        }
    }
    proof {
        assert(v@ =~= s@);
    }
    v
}

fn is_digit(c: char) -> (b: bool)
    ensures
        b == is_digit_char(c),
{
    let u = c as u32;
    48 <= u && u <= 57
}

/// End of the run of digits that starts at `i`.
fn digit_run(cs: &Vec<char>, i: usize) -> (j: usize)
    requires
        i <= cs.len(),
    ensures
        j == digit_run_end(cs@, i as int),
{
    let n = cs.len();
    let mut j = i;
    while j < n && is_digit(cs[j])
        invariant
            n == cs@.len(),
            i <= j <= n,
            digit_run_end(cs@, i as int) == digit_run_end(cs@, j as int),
        decreases n - j,
    {
        j = j + 1;
    }
    j
}

/// Appends the values of the digit characters `cs[from..to]`.
fn push_digit_values(out: &mut Vec<u8>, cs: &Vec<char>, from: usize, to: usize)
    requires
        from <= to <= cs.len(),
        forall|k: int| from <= k < to ==> is_digit_char(#[trigger] cs@[k]),
    ensures
        final(out)@ == old(out)@ + digit_seq(cs@.subrange(from as int, to as int)),
{
    let mut k = from;
    while k < to
        invariant
            from <= k <= to,
            to <= cs.len(),
            forall|j: int| from <= j < to ==> is_digit_char(#[trigger] cs@[j]),
            out@ == old(out)@ + digit_seq(cs@.subrange(from as int, k as int)),
        decreases to - k,
    {
        let c = cs[k];
        proof {
            assert(is_digit_char(cs@[k as int]));
        }
        let d: u8 = (c as u32 - 48) as u8;
        out.push(d);
        proof {
            assert(digit_seq(cs@.subrange(from as int, (k + 1) as int)) =~= digit_seq(
                cs@.subrange(from as int, k as int),
            ).push(d));
        }
        k = k + 1;
    }
}

/// The value of the digit characters `cs[from..to]`, or `EXP_CAP` where it is larger.
fn capped_digits_value(cs: &Vec<char>, from: usize, to: usize) -> (v: u128)
    requires
        from <= to <= cs.len(),
        forall|k: int| from <= k < to ==> is_digit_char(#[trigger] cs@[k]),
    ensures
        v == if digits_value(digit_seq(cs@.subrange(from as int, to as int))) < EXP_CAP {
            digits_value(digit_seq(cs@.subrange(from as int, to as int)))
        } else {
            EXP_CAP as nat
        },
{
    let mut v: u128 = 0;
    let mut k = from;
    proof {
        assert(digit_seq(cs@.subrange(from as int, from as int)) =~= Seq::<u8>::empty());
    }
    while k < to
        invariant
            from <= k <= to,
            to <= cs.len(),
            forall|j: int| from <= j < to ==> is_digit_char(#[trigger] cs@[j]),
            v == if digits_value(digit_seq(cs@.subrange(from as int, k as int))) < EXP_CAP {
                digits_value(digit_seq(cs@.subrange(from as int, k as int)))
            } else {
                EXP_CAP as nat
            },
        decreases to - k,
    {
        let c = cs[k];
        proof {
            assert(is_digit_char(cs@[k as int]));
        }
        let d: u8 = (c as u32 - 48) as u8;
        let ghost prev = digit_seq(cs@.subrange(from as int, k as int));
        let ghost next = digit_seq(cs@.subrange(from as int, (k + 1) as int));
        proof {
            assert(next =~= prev.push(d));
            assert(next.drop_last() =~= prev);
            assert(digits_value(next) == digits_value(prev) * 10 + d);
        }
        if v < EXP_CAP {
            let w = v * 10 + d as u128;
            v = if w < EXP_CAP { w } else { EXP_CAP };
        }
        k = k + 1;
    }
    v
}


/// A number of the `f64` grammar, taken apart, with its exponent's magnitude capped.
struct ScannedDecimal {
    negative: bool,
    digits: Vec<u8>,
    frac_len: usize,
    exp_negative: bool,
    exp_capped: u128,
}

pub open spec fn capped(v: nat) -> nat {
    if v < EXP_CAP {
        v
    } else {
        EXP_CAP as nat
    }
}

fn is_sign(c: char) -> (b: bool)
    ensures
        b == (c == '+' || c == '-'),
{
    c == '+' || c == '-'
}

/// The digit values of `cs[p0..i1]` followed by those of `cs[f0..f1]`.
fn collect_mantissa(cs: &Vec<char>, p0: usize, i1: usize, f0: usize, f1: usize) -> (digits: Vec<u8>)
    requires
        p0 <= i1 <= f0 <= f1 <= cs.len(),
        forall|k: int| p0 <= k < i1 ==> is_digit_char(#[trigger] cs@[k]),
        forall|k: int| f0 <= k < f1 ==> is_digit_char(#[trigger] cs@[k]),
    ensures
        digits@ == digit_seq(cs@.subrange(p0 as int, i1 as int) + cs@.subrange(f0 as int, f1 as int)),
        all_digits(digits@),
        digits@.len() <= cs@.len(),
{
    let ghost s = cs@;
    let mut digits: Vec<u8> = Vec::new();
    push_digit_values(&mut digits, cs, p0, i1);
    push_digit_values(&mut digits, cs, f0, f1);
    proof {
        let a = s.subrange(p0 as int, i1 as int);
        let b = s.subrange(f0 as int, f1 as int);
        assert(digit_seq(a + b) =~= digit_seq(a) + digit_seq(b));
        assert(digits@ =~= digit_seq(a + b));
        assert forall|k: int| 0 <= k < (a + b).len() implies is_digit_char(#[trigger] (a + b)[k]) by {
            if k < a.len() {
                assert((a + b)[k] == s[p0 + k]);
            } else {
                assert((a + b)[k] == s[f0 + k - a.len()]);
            }
        }
        lemma_digit_seq_digits(a + b);
    }
    digits
}

/// Takes apart a number of the grammar of `parse_decimal`.
fn scan_decimal(cs: &Vec<char>) -> (r: Option<ScannedDecimal>)
    ensures
        r is Some <==> parse_decimal(cs@) is Some,
        r matches Some(sc) ==> {
            let lit = parse_decimal(cs@)->0;
            &&& sc.negative == lit.negative
            &&& sc.digits@ == lit.digits
            &&& all_digits(lit.digits)
            &&& lit.digits.len() <= cs@.len()
            &&& sc.frac_len == lit.frac_len
            &&& sc.exp_negative == lit.exp_negative
            &&& sc.exp_capped == capped(digits_value(lit.exp_digits))
        },
{
    let ghost s = cs@;
    let n = cs.len();
    let p0: usize = if n > 0 && is_sign(cs[0]) { 1 } else { 0 };
    assert(p0 == sign_len(s, 0));
    let i1 = digit_run(cs, p0);
    proof {
        lemma_digit_run_end(s, p0 as int);
    }
    let has_dot = i1 < n && cs[i1] == '.';
    let f0 = if has_dot { i1 + 1 } else { i1 };
    let f1 = digit_run(cs, f0);
    proof {
        lemma_digit_run_end(s, f0 as int);
    }
    if i1 == p0 && f1 == f0 {
        return None;
    }
    let negative = p0 == 1 && cs[0] == '-';
    let digits = collect_mantissa(cs, p0, i1, f0, f1);
    let frac_len = f1 - f0;
    if f1 == n {
        proof {
            assert(digits_value(Seq::<u8>::empty()) == 0);
        }
        return Some(
            ScannedDecimal { negative, digits, frac_len, exp_negative: false, exp_capped: 0 },
        );
    }
    if cs[f1] == 'e' || cs[f1] == 'E' {
        let x0 = f1 + 1;
        let x1 = if x0 < n && is_sign(cs[x0]) { x0 + 1 } else { x0 };
        assert(x1 == x0 + sign_len(s, x0 as int));
        let x2 = digit_run(cs, x1);
        proof {
            lemma_digit_run_end(s, x1 as int);
        }
        if x1 < x2 && x2 == n {
            let exp_negative = x1 > x0 && cs[x0] == '-';
            let exp_capped = capped_digits_value(cs, x1, x2);
            Some(ScannedDecimal { negative, digits, frac_len, exp_negative, exp_capped })
        } else {
            None
        }
    } else {
        None
    }
}

/// Whether `cs[from..]`, lower-cased, is `word`.
fn lower_tail_is(cs: &Vec<char>, from: usize, word: &[char]) -> (b: bool)
    requires
        from <= cs.len(),
        forall|k: int| 0 <= k < word@.len() ==> 97 <= #[trigger] word@[k] as u32 <= 122,
    ensures
        b == (cs@.skip(from as int).map_values(|c: char| ascii_lower(c)) == word@),
{
    let ghost w = cs@.skip(from as int).map_values(|c: char| ascii_lower(c));
    if cs.len() - from != word.len() {
        assert(w.len() != word@.len());
        return false;
    }
    let mut k: usize = 0;
    while k < word.len()
        invariant
            k <= word@.len(),
            word.len() == word@.len(),
            cs.len() == cs@.len(),
            cs@.len() - from == word@.len(),
            from <= cs@.len(),
            w == cs@.skip(from as int).map_values(|c: char| ascii_lower(c)),
            forall|j: int| 0 <= j < word@.len() ==> 97 <= #[trigger] word@[j] as u32 <= 122,
            forall|j: int| 0 <= j < k ==> w[j] == word@[j],
        decreases word@.len() - k,
    {
        let c = cs[from + k];
        let x = word[k];
        let cu = c as u32;
        let xu = x as u32;
        proof {
            assert(w[k as int] == ascii_lower(c));
        }
        if !(cu == xu || cu + 32 == xu) {
            proof {
                assert(w[k as int] != word@[k as int]) by {
                    if 65 <= cu <= 90 {
                        assert(ascii_lower(c) as u32 == cu + 32);
                    }
                }
            }
            return false;
        }
        proof {
            vstd::utf8::char_u32_cast(c, cu);
            vstd::utf8::char_u32_cast(x, xu);
            assert(97 <= xu <= 122);
            if cu == xu {
                assert(c == x);
                assert(ascii_lower(c) == x);
            } else {
                assert(65 <= cu <= 90);
                assert(ascii_lower(c) == (cu + 32) as char);
                assert(ascii_lower(c) == x);
            }
        }
        k = k + 1;
    }
    proof {
        assert(w =~= word@);
    }
    true
}

fn inf_or_nan(cs: &Vec<char>) -> (b: bool)
    ensures
        b == is_inf_or_nan(cs@),
{
    let n = cs.len();
    let p0: usize = if n > 0 && is_sign(cs[0]) { 1 } else { 0 };
    let inf = ['i', 'n', 'f'];
    let infinity = ['i', 'n', 'f', 'i', 'n', 'i', 't', 'y'];
    let nan = ['n', 'a', 'n'];
    proof {
        assert(inf@ =~= seq!['i', 'n', 'f']);
        assert(infinity@ =~= seq!['i', 'n', 'f', 'i', 'n', 'i', 't', 'y']);
        assert(nan@ =~= seq!['n', 'a', 'n']);
    }
    lower_tail_is(cs, p0, inf.as_slice()) || lower_tail_is(cs, p0, infinity.as_slice())
        || lower_tail_is(cs, p0, nan.as_slice())
}


/// Reads a time setting: `Valid` with its value in whole nanoseconds where it holds a number
/// of seconds between one second and one hour, `OutOfRange` where it holds another number,
/// `Invalid` where it holds no number.
pub fn check_time_config(value: &str) -> (r: TimeConfig)
    ensures
        r == time_config_of(value@),
        r matches TimeConfig::Valid(ns) ==> MIN_TIME <= ns <= MAX_TIME,
{
    let cs = chars_of(value);
    match scan_decimal(&cs) {
        None => {
            if inf_or_nan(&cs) {
                TimeConfig::OutOfRange
            } else {
                TimeConfig::Invalid
            }
        },
        Some(sc) => {
            let ghost lit = parse_decimal(cs@)->0;
            let ghost n = digits_value(lit.digits);
            let ghost true_scale = lit.exponent() - lit.frac_len + 9;
            if sc.negative {
                return TimeConfig::OutOfRange;
            }
            if sc.exp_capped == EXP_CAP {
                proof {
                    lemma_far_scale_out_of_range(lit.digits, true_scale);
                }
                return TimeConfig::OutOfRange;
            }
            let e: i128 = if sc.exp_negative {
                -(sc.exp_capped as i128)
            } else {
                sc.exp_capped as i128
            };
            let scale: i128 = e - sc.frac_len as i128 + 9;
            assert(scale == true_scale);
            match scale_to_ns(&sc.digits, scale) {
                Some(m) => {
                    proof {
                        lemma_ns_floor_in_range(n, true_scale);
                    }
                    TimeConfig::Valid(m as i64)
                },
                None => TimeConfig::OutOfRange,
            }
        },
    }
}

/// The time a setting holds, in nanoseconds, or `default` where it holds no number of
/// seconds between one second and one hour.
pub fn parse_time_config(value: &str, default: i64) -> (r: i64)
    ensures
        r == match time_config_of(value@) {
            TimeConfig::Valid(ns) => ns,
            _ => default,
        },
        r == default || MIN_TIME <= r <= MAX_TIME,
{
    match check_time_config(value) {
        TimeConfig::Valid(ns) => ns,
        _ => default,
    }
}


/// A valid time setting lies between one second and one hour.
pub proof fn lemma_valid_time_in_range(s: Seq<char>)
    ensures
        time_config_of(s) matches TimeConfig::Valid(ns) ==> MIN_TIME <= ns <= MAX_TIME,
{
    if let Some(lit) = parse_decimal(s) {
        let n = digits_value(lit.digits);
        let scale = lit.exponent() - lit.frac_len + 9;
        if !lit.negative && ns_in_range(n, scale) {
            lemma_ns_floor_in_range(n, scale);
        }
    }
}

} // verus!
