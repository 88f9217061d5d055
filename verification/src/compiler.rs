//! The compiler: from identified textual operator tokens to an executable
//! program, with compile-time arity checking and per-operator state
//! continuity across edits.
//!
//! Token grammar: an operator name, optionally followed by `:` and a numeric
//! parameter literal.  A bare numeric literal pushes a constant.  Numeric
//! literals are signed decimals with at most six fractional digits (the
//! fixed-point resolution).

use vstd::prelude::*;
use vstd::string::StrSliceExecFns;
use crate::op::{
    fresh_state, fresh_view, op_ok, out_arity, in_arity, spec_in_arity, spec_out_arity,
    spec_stateful, state_fits, stateful, Op, OpKind, OpState, OpV, StateView,
};
use crate::sample::{Sample, CHANNELS, SAMPLE_UNIT};
use crate::vm::{depth_at, kinds_of, Program};

verus! {

/// Compiled programs never need more evaluation-stack room than this; a
/// token sequence that would is rejected with a stack-overflow error.
pub const MAX_STACK: usize = 256;

/// Delay lines are capped at this many frames; a longer request is an
/// out-of-range parameter.
pub const MAX_DELAY: u64 = 10_000_000;

/// One identified textual operator token.  The identity is assigned once
/// when an editor creates the token and is stable across edits of its text;
/// it is the sole continuity key for stateful operators.
#[derive(Debug)]
pub struct TextOp {
    pub id: u64,
    pub op: String,
}

// ------------------------------------------------------------------
// Decimal literals
// ------------------------------------------------------------------

/// Is this character a decimal digit?
pub open spec fn is_digit(c: char) -> bool {
    48 <= (c as int) && (c as int) <= 57
}

/// The value of a digit character.
pub open spec fn digit_val(c: char) -> int {
    (c as int) - 48
}

/// All characters are decimal digits.
pub open spec fn all_digits(s: Seq<char>) -> bool {
    forall|i: int| 0 <= i < s.len() ==> is_digit(#[trigger] s[i])
}

/// The number a digit string denotes.
pub open spec fn digits_val(s: Seq<char>) -> int
    decreases s.len(),
{
    if s.len() == 0 {
        0
    } else {
        digits_val(s.drop_last()) * 10 + digit_val(s.last())
    }
}

/// Ten to the `n`-th power.
pub open spec fn pow10(n: nat) -> int
    decreases n,
{
    if n == 0 {
        1
    } else {
        10 * pow10((n - 1) as nat)
    }
}

/// Index of the first occurrence of `c`, or the length if absent.
pub open spec fn find_char(s: Seq<char>, c: char) -> int
    decreases s.len(),
{
    if s.len() == 0 {
        0
    } else if s[0] == c {
        0
    } else {
        1 + find_char(s.subrange(1, s.len() as int), c)
    }
}

proof fn lemma_find_char(s: Seq<char>, c: char)
    ensures
        0 <= find_char(s, c) <= s.len(),
        forall|i: int| 0 <= i < find_char(s, c) ==> s[i] != c,
        find_char(s, c) < s.len() ==> s[find_char(s, c)] == c,
    decreases s.len(),
{
    if s.len() > 0 && s[0] != c {
        let sub = s.subrange(1, s.len() as int);
        lemma_find_char(sub, c);
        assert forall|i: int| 0 <= i < find_char(s, c) implies s[i] != c by {
            if i > 0 {
                assert(s[i] == sub[i - 1]);
            }
        }
        if find_char(s, c) < s.len() {
            assert(s[find_char(s, c)] == sub[find_char(sub, c)]);
        }
    }
}

proof fn lemma_find_char_is(s: Seq<char>, c: char, d: int)
    requires
        0 <= d <= s.len(),
        forall|i: int| 0 <= i < d ==> s[i] != c,
        d < s.len() ==> s[d] == c,
    ensures
        find_char(s, c) == d,
{
    lemma_find_char(s, c);
    let f = find_char(s, c);
    if f < d {
        assert(s[f] != c);
    }
    if d < f {
        assert(s[d] != c);
    }
}

proof fn lemma_digits_nonneg(s: Seq<char>)
    requires
        all_digits(s),
    ensures
        digits_val(s) >= 0,
    decreases s.len(),
{
    if s.len() > 0 {
        assert(all_digits(s.drop_last()));
        lemma_digits_nonneg(s.drop_last());
    }
}

/// A longer digit prefix never denotes a smaller number.
proof fn lemma_digits_mono(s: Seq<char>, j: int, k: int)
    requires
        all_digits(s),
        0 <= j <= k <= s.len(),
    ensures
        digits_val(s.subrange(0, j)) <= digits_val(s.subrange(0, k)),
    decreases k - j,
{
    if j < k {
        lemma_digits_mono(s, j, k - 1);
        let p = s.subrange(0, k);
        assert(p.drop_last() =~= s.subrange(0, k - 1));
        assert(all_digits(p.drop_last()));
        lemma_digits_nonneg(p.drop_last());
    }
}

proof fn lemma_digits_bound(s: Seq<char>)
    requires
        all_digits(s),
    ensures
        digits_val(s) < pow10(s.len()),
    decreases s.len(),
{
    if s.len() > 0 {
        assert(all_digits(s.drop_last()));
        lemma_digits_bound(s.drop_last());
        lemma_pow10_pos(s.len() as nat);
    }
}

proof fn lemma_pow10_pos(n: nat)
    ensures
        pow10(n) >= 1,
    decreases n,
{
    if n > 0 {
        lemma_pow10_pos((n - 1) as nat);
    }
}

/// The unsigned decimal grammar: digits, optionally a dot and one to six
/// fractional digits.
pub open spec fn dec_ok(t: Seq<char>) -> bool {
    let d = find_char(t, '.');
    &&& t.len() > 0
    &&& d > 0
    &&& all_digits(t.subrange(0, d))
    &&& (d == t.len() || {
        let frac = t.subrange(d + 1, t.len() as int);
        1 <= frac.len() <= 6 && all_digits(frac)
    })
}

/// The value of an unsigned decimal, in fixed-point units.
pub open spec fn dec_val(t: Seq<char>) -> int {
    let d = find_char(t, '.');
    if d == t.len() {
        digits_val(t) * (SAMPLE_UNIT as int)
    } else {
        let frac = t.subrange(d + 1, t.len() as int);
        digits_val(t.subrange(0, d)) * (SAMPLE_UNIT as int) + digits_val(frac) * pow10(
            (6 - frac.len()) as nat,
        )
    }
}

/// A decimal literal: an unsigned decimal with an optional leading minus.
pub open spec fn decimal_ok(s: Seq<char>) -> bool {
    if s.len() > 0 && s[0] == '-' {
        dec_ok(s.subrange(1, s.len() as int))
    } else {
        dec_ok(s)
    }
}

/// The value a decimal literal denotes, in fixed-point units.
pub open spec fn decimal_val(s: Seq<char>) -> int {
    if s.len() > 0 && s[0] == '-' {
        -dec_val(s.subrange(1, s.len() as int))
    } else {
        dec_val(s)
    }
}

/// Result of reading a token as a sample literal: the value if the grammar
/// fits and the magnitude is representable, nothing otherwise.
pub open spec fn parse_spec(s: Seq<char>) -> Option<int> {
    if decimal_ok(s) && -(i64::MAX as int) <= decimal_val(s) <= i64::MAX as int {
        Some(decimal_val(s))
    } else {
        None
    }
}

/// Read a token as a sample literal.
#[verifier::rlimit(60)]
pub fn parse_sample(s: &str) -> (r: Option<Sample>)
    ensures
        match r {
            Some(v) => parse_spec(s@) == Some(v as int),
            None => parse_spec(s@) is None,
        },
{
    let n = s.unicode_len();
    if n == 0 {
        return None;
    }
    let neg = s.get_char(0) == '-';
    let start: usize = if neg {
        1
    } else {
        0
    };
    let ghost t: Seq<char> = s@.subrange(start as int, s@.len() as int);
    proof {
        if !neg {
            assert(t =~= s@);
        }
    }
    // locate the first dot of the unsigned part
    let mut dot: usize = n;
    let mut i: usize = start;
    while i < n
        invariant
            start <= i <= n,
            n == s@.len(),
            start <= 1,
            dot == n || (start <= dot && dot < i && s@[dot as int] == '.'),
            forall|m: int| start <= m < i && m < dot ==> s@[m] != '.',
            dot == n ==> forall|m: int| start <= m < i ==> s@[m] != '.',
        decreases n - i,
    {
        if dot == n && s.get_char(i) == '.' {
            dot = i;
        }
        i = i + 1;
    }
    let ghost d: int = dot - start;
    proof {
        lemma_find_char_is(t, '.', d);
    }
    if dot == start {
        // empty integer part
        return None;
    }
    // integer part
    let mut acc: u128 = 0;
    let mut j: usize = start;
    while j < dot
        invariant
            start <= j <= dot <= n,
            n == s@.len(),
            start <= 1,
            d == dot - start,
            find_char(t, '.') == d,
            d <= t.len(),
            t == s@.subrange(start as int, s@.len() as int),
            neg ==> s@.len() > 0 && s@[0] == '-' && start == 1,
            !neg ==> t == s@ && start == 0 && s@[0] != '-',
            s@.len() > 0,
            acc as int == digits_val(t.subrange(0, j - start)),
            acc <= i64::MAX as u128,
            forall|m: int| 0 <= m < j - start ==> is_digit(#[trigger] t[m]),
        decreases dot - j,
    {
        let c = s.get_char(j);
        let cv = c as u32;
        proof {
            assert(t[j - start] == s@[j as int]);
        }
        if cv < 48 || cv > 57 {
            // a non-digit in the integer part: not a literal
            proof {
                assert(!is_digit(t[j - start]));
                assert(t.subrange(0, d)[j - start] == t[j - start]);
                assert(!all_digits(t.subrange(0, d)));
                assert(!dec_ok(t));
                if neg {
                    assert(s@.subrange(1, s@.len() as int) == t);
                }
                assert(!decimal_ok(s@));
            }
            return None;
        }
        proof {
            let p = t.subrange(0, j - start + 1);
            assert(p.drop_last() =~= t.subrange(0, j - start));
            assert(p.last() == t[j - start]);
        }
        acc = acc * 10 + (cv - 48) as u128;
        if acc > i64::MAX as u128 {
            // the integer part alone is already out of range
            proof {
                lemma_out_of_range(t, j - start + 1, acc as int);
            }
            return None;
        }
        j = j + 1;
    }
    proof {
        assert(t.subrange(0, d) =~= t.subrange(0, (dot - start) as int));
    }
    // fractional part
    let mut frac: u128 = 0;
    let mut scale: u128 = 1_000_000;
    if dot < n {
        let fd = n - dot - 1;
        if fd == 0 || fd > 6 {
            proof {
                assert(t.subrange(d + 1, t.len() as int).len() == fd);
                assert(!dec_ok(t));
            }
            return None;
        }
        let mut k: usize = dot + 1;
        while k < n
            invariant
                dot + 1 <= k <= n,
                n == s@.len(),
                start <= 1,
                start <= dot < n,
                n - dot - 1 <= 6,
                d == dot - start,
                find_char(t, '.') == d,
                t == s@.subrange(start as int, s@.len() as int),
                neg ==> s@.len() > 0 && s@[0] == '-' && start == 1,
                !neg ==> t == s@ && start == 0 && s@[0] != '-',
                s@.len() > 0,
                frac as int == digits_val(t.subrange(d + 1, k - start)),
                frac < 1_000_000_000,
                forall|m: int| d + 1 <= m < k - start ==> is_digit(#[trigger] t[m]),
            decreases n - k,
        {
            let c = s.get_char(k);
            let cv = c as u32;
            proof {
                assert(t[k - start] == s@[k as int]);
            }
            if cv < 48 || cv > 57 {
                proof {
                    assert(!is_digit(t[(k - start) as int]));
                    assert(t.subrange(d + 1, t.len() as int)[k - start - (d + 1)] == t[k
                        - start]);
                    assert(!all_digits(t.subrange(d + 1, t.len() as int)));
                    assert(!dec_ok(t));
                    if neg {
                        assert(s@.subrange(1, s@.len() as int) == t);
                    }
                    assert(!decimal_ok(s@));
                }
                return None;
            }
            proof {
                let p = t.subrange(d + 1, k - start + 1);
                assert(p.drop_last() =~= t.subrange(d + 1, k - start));
                assert(p.last() == t[k - start]);
                let pd = p.drop_last();
                assert(all_digits(pd));
                lemma_digits_bound(pd);
                lemma_pow10_small(pd.len() as nat);
            }
            frac = frac * 10 + (cv - 48) as u128;
            k = k + 1;
        }
        scale = match fd {
            1 => 100_000,
            2 => 10_000,
            3 => 1_000,
            4 => 100,
            5 => 10,
            _ => 1,
        };
        proof {
            assert(t.subrange(d + 1, t.len() as int) =~= t.subrange(d + 1, (n - start) as int));
            lemma_pow10_values();
            assert(scale as int == pow10((6 - (t.len() - d - 1)) as nat));
        }
    }
    proof {
        assert(dec_ok(t));
        if dot < n {
            let fracpart = t.subrange(d + 1, t.len() as int);
            assert(all_digits(fracpart));
            lemma_digits_bound(fracpart);
            lemma_pow10_small(fracpart.len() as nat);
            lemma_pow10_small((6 - fracpart.len()) as nat);
            assert((frac as int) * (scale as int) <= 1_000_000_000int * 1_000_000int)
                by (nonlinear_arith)
                requires
                    0 <= (frac as int) < 1_000_000_000,
                    0 <= (scale as int) <= 1_000_000,
            ;
            lemma_digits_nonneg(fracpart);
            assert((frac as int) * (scale as int) >= 0) by (nonlinear_arith)
                requires
                    (frac as int) >= 0,
                    (scale as int) >= 0,
            ;
        }
    }
    let value: u128 = acc * 1_000_000 + if dot < n {
        frac * scale
    } else {
        0
    };
    proof {
        if dot == n {
            assert(t.subrange(0, d) =~= t);
            assert(find_char(t, '.') == t.len());
        }
        assert(value as int == dec_val(t));
    }
    if value > i64::MAX as u128 {
        return None;
    }
    let v = value as i64;
    if neg {
        proof {
            assert(s@[0] == '-');
            assert(decimal_val(s@) == -dec_val(t));
        }
        Some(-v)
    } else {
        proof {
            assert(decimal_val(s@) == dec_val(t));
        }
        Some(v)
    }
}

/// If a digit prefix of the integer part already exceeds the representable
/// range, the whole literal does.
proof fn lemma_out_of_range(t: Seq<char>, j: int, acc: int)
    requires
        0 < j <= find_char(t, '.'),
        find_char(t, '.') <= t.len(),
        all_digits(t.subrange(0, j)),
        acc == digits_val(t.subrange(0, j)),
        acc > i64::MAX as int,
    ensures
        parse_spec(t) is None,
        forall|s: Seq<char>|
            s.len() > 0 && s[0] == '-' && s.subrange(1, s.len() as int) == t ==> parse_spec(
                s,
            ) is None,
{
    assert(is_digit(t.subrange(0, j)[0]));
    assert(t[0] != '-');
    if dec_ok(t) {
        let d = find_char(t, '.');
        let ip = t.subrange(0, d);
        assert(all_digits(ip));
        lemma_digits_mono(ip, j, d);
        assert(t.subrange(0, j) =~= ip.subrange(0, j));
        assert(ip.subrange(0, d) =~= ip);
        let iv = digits_val(ip);
        assert(iv >= acc);
        assert(iv * 1_000_000 >= iv) by (nonlinear_arith)
            requires
                iv > 0,
        ;
        if d == t.len() {
            assert(ip =~= t);
        } else {
            let frac = t.subrange(d + 1, t.len() as int);
            lemma_digits_nonneg(frac);
            lemma_pow10_pos((6 - frac.len()) as nat);
            assert(digits_val(frac) * pow10((6 - frac.len()) as nat) >= 0) by (nonlinear_arith)
                requires
                    digits_val(frac) >= 0,
                    pow10((6 - frac.len()) as nat) >= 1,
            ;
        }
        assert(dec_val(t) > i64::MAX as int);
    }
    assert forall|s: Seq<char>|
        s.len() > 0 && s[0] == '-' && s.subrange(1, s.len() as int) == t implies parse_spec(
        s,
    ) is None by {
        if dec_ok(t) {
            assert(decimal_val(s) == -dec_val(t));
        }
    }
}

proof fn lemma_pow10_small(n: nat)
    requires
        n <= 6,
    ensures
        pow10(n) <= 1_000_000,
    decreases n,
{
    lemma_pow10_values();
}

/// The first seven powers of ten, by unfolding.
proof fn lemma_pow10_values()
    ensures
        pow10(0) == 1,
        pow10(1) == 10,
        pow10(2) == 100,
        pow10(3) == 1_000,
        pow10(4) == 10_000,
        pow10(5) == 100_000,
        pow10(6) == 1_000_000,
{
    assert(pow10(0) == 1);
    assert(pow10(1) == 10);
    assert(pow10(2) == 100);
    assert(pow10(3) == 1_000);
    assert(pow10(4) == 10_000);
    assert(pow10(5) == 100_000);
    assert(pow10(6) == 1_000_000);
}

// ------------------------------------------------------------------
// Name resolution
// ------------------------------------------------------------------

/// Why a single token failed to resolve.
#[derive(Clone, Copy, Debug, PartialEq, Eq, Structural)]
pub enum ResolveFault {
    /// The name is not in the operator registry.
    Unknown,
    /// The parameter is missing, unreadable, out of range, or given to an
    /// operator that takes none.
    BadParam,
}

/// Resolution of one token against the operator registry, given the sample
/// rate: the configured operator kind, or the fault.
#[verifier::opaque]
pub open spec fn resolve_spec(t: Seq<char>, sr: u32) -> Result<OpKind, ResolveFault> {
    let d = find_char(t, ':');
    let name = t.subrange(0, d);
    if d == t.len() {
        match parse_spec(name) {
            Some(v) => Ok(OpKind::Const(v as i64)),
            None => if name == "+"@ {
                Ok(OpKind::Add)
            } else if name == "-"@ {
                Ok(OpKind::Sub)
            } else if name == "*"@ {
                Ok(OpKind::Mul)
            } else if name == "<"@ {
                Ok(OpKind::Less)
            } else if name == "dup"@ {
                Ok(OpKind::Dup)
            } else if name == "swap"@ {
                Ok(OpKind::Swap)
            } else if name == "drop"@ {
                Ok(OpKind::Discard)
            } else if name == "noise"@ {
                Ok(OpKind::Noise)
            } else if name == "sine"@ || name == "delay"@ || name == "lpf"@ {
                Err(ResolveFault::BadParam)
            } else {
                Err(ResolveFault::Unknown)
            },
        }
    } else {
        let param = t.subrange(d + 1, t.len() as int);
        if name == "sine"@ {
            match parse_spec(param) {
                Some(v) => if v >= 0 {
                    Ok(OpKind::Sine { inc: (v / (sr as int)) as u64 })
                } else {
                    Err(ResolveFault::BadParam)
                },
                None => Err(ResolveFault::BadParam),
            }
        } else if name == "delay"@ {
            match parse_spec(param) {
                Some(v) => if 0 < v <= 60 * (SAMPLE_UNIT as int) {
                    let frames = v * (sr as int) / (SAMPLE_UNIT as int);
                    if frames <= MAX_DELAY as int {
                        Ok(
                            OpKind::Delay {
                                len: (if frames < 1 {
                                    1int
                                } else {
                                    frames
                                }) as usize,
                            },
                        )
                    } else {
                        Err(ResolveFault::BadParam)
                    }
                } else {
                    Err(ResolveFault::BadParam)
                },
                None => Err(ResolveFault::BadParam),
            }
        } else if name == "lpf"@ {
            match parse_spec(param) {
                Some(v) => if v >= 0 {
                    let steps = v * (sr as int) / (SAMPLE_UNIT as int);
                    Ok(OpKind::Lpf { alpha: ((SAMPLE_UNIT as int) / (1 + steps)) as i64 })
                } else {
                    Err(ResolveFault::BadParam)
                },
                None => Err(ResolveFault::BadParam),
            }
        } else if parse_spec(name) is Some || name == "+"@ || name == "-"@ || name == "*"@
            || name == "<"@ || name == "dup"@ || name == "swap"@ || name == "drop"@ || name
            == "noise"@ {
            // a parameter handed to an operator that takes none
            Err(ResolveFault::BadParam)
        } else {
            Err(ResolveFault::Unknown)
        }
    }
}

/// Compare two strings by contents.
fn str_eq(a: &str, b: &str) -> (r: bool)
    ensures
        r == (a@ == b@),
{
    let na = a.unicode_len();
    let nb = b.unicode_len();
    if na != nb {
        return false;
    }
    let mut i: usize = 0;
    while i < na
        invariant
            i <= na,
            na == a@.len(),
            na == b@.len(),
            forall|m: int| 0 <= m < i ==> a@[m] == b@[m],
        decreases na - i,
    {
        if a.get_char(i) != b.get_char(i) {
            return false;
        }
        i = i + 1;
    }
    proof {
        assert(a@ =~= b@);
    }
    true
}

/// Locate the first `:` of a token (the length if there is none).
fn find_colon(s: &str) -> (d: usize)
    ensures
        d == find_char(s@, ':'),
        d <= s@.len(),
{
    let n = s.unicode_len();
    let mut d: usize = n;
    let mut i: usize = 0;
    while i < n
        invariant
            i <= n,
            n == s@.len(),
            d == n || (d < i && s@[d as int] == ':'),
            forall|m: int| 0 <= m < i && m < d ==> s@[m] != ':',
            d == n ==> forall|m: int| 0 <= m < i ==> s@[m] != ':',
        decreases n - i,
    {
        if d == n && s.get_char(i) == ':' {
            d = i;
        }
        i = i + 1;
    }
    proof {
        lemma_find_char_is(s@, ':', d as int);
    }
    d
}

/// The name part of a token (everything before the first `:`).
fn name_part(s: &str) -> (r: String)
    ensures
        r@ == s@.subrange(0, find_char(s@, ':')),
{
    let d = find_colon(s);
    s.substring_char(0, d).to_owned()
}

/// Resolve one token against the operator registry.
fn resolve(s: &str, sample_rate: u32) -> (r: Result<OpKind, ResolveFault>)
    requires
        sample_rate >= 1,
    ensures
        r == resolve_spec(s@, sample_rate),
{
    proof {
        reveal(resolve_spec);
    }
    let n = s.unicode_len();
    let d = find_colon(s);
    let name = s.substring_char(0, d);
    if d == n {
        if let Some(v) = parse_sample(name) {
            return Ok(OpKind::Const(v));
        }
        if str_eq(name, "+") {
            Ok(OpKind::Add)
        } else if str_eq(name, "-") {
            Ok(OpKind::Sub)
        } else if str_eq(name, "*") {
            Ok(OpKind::Mul)
        } else if str_eq(name, "<") {
            Ok(OpKind::Less)
        } else if str_eq(name, "dup") {
            Ok(OpKind::Dup)
        } else if str_eq(name, "swap") {
            Ok(OpKind::Swap)
        } else if str_eq(name, "drop") {
            Ok(OpKind::Discard)
        } else if str_eq(name, "noise") {
            Ok(OpKind::Noise)
        } else if str_eq(name, "sine") || str_eq(name, "delay") || str_eq(name, "lpf") {
            Err(ResolveFault::BadParam)
        } else {
            Err(ResolveFault::Unknown)
        }
    } else {
        let param = s.substring_char(d + 1, n);
        if str_eq(name, "sine") {
            match parse_sample(param) {
                Some(v) => if v >= 0 {
                    let inc: u64 = (v as u64) / (sample_rate as u64);
                    proof {
                        vstd::arithmetic::div_mod::lemma_div_basics(v as int);
                        vstd::arithmetic::div_mod::lemma_div_is_ordered_by_denominator(
                            v as int,
                            1,
                            sample_rate as int,
                        );
                    }
                    Ok(OpKind::Sine { inc })
                } else {
                    Err(ResolveFault::BadParam)
                },
                None => Err(ResolveFault::BadParam),
            }
        } else if str_eq(name, "delay") {
            match parse_sample(param) {
                Some(v) => if 0 < v && v <= 60 * SAMPLE_UNIT {
                    proof {
                        assert((v as int) * (sample_rate as int) <= 60_000_000int
                            * 0x100000000int) by (nonlinear_arith)
                            requires
                                0 <= (v as int) <= 60_000_000,
                                0 <= (sample_rate as int) <= 0x100000000int,
                        ;
                    }
                    let frames: u128 = (v as u128) * (sample_rate as u128) / (
                    SAMPLE_UNIT as u128);
                    if frames > MAX_DELAY as u128 {
                        Err(ResolveFault::BadParam)
                    } else {
                        let len: usize = if frames < 1 {
                            1
                        } else {
                            frames as usize
                        };
                        Ok(OpKind::Delay { len })
                    }
                } else {
                    Err(ResolveFault::BadParam)
                },
                None => Err(ResolveFault::BadParam),
            }
        } else if str_eq(name, "lpf") {
            match parse_sample(param) {
                Some(v) => if v >= 0 {
                    proof {
                        assert((v as int) * (sample_rate as int) <= 0x8000000000000000int
                            * 0x100000000int) by (nonlinear_arith)
                            requires
                                0 <= (v as int) <= 0x8000000000000000int,
                                0 <= (sample_rate as int) <= 0x100000000int,
                        ;
                    }
                    let steps: u128 = (v as u128) * (sample_rate as u128) / (
                    SAMPLE_UNIT as u128);
                    let alpha: i64 = (1_000_000u128 / (1 + steps)) as i64;
                    proof {
                        vstd::arithmetic::div_mod::lemma_div_pos_is_pos(
                            1_000_000int,
                            1 + steps as int,
                        );
                        vstd::arithmetic::div_mod::lemma_div_basics(1_000_000int);
                        vstd::arithmetic::div_mod::lemma_div_is_ordered_by_denominator(
                            1_000_000int,
                            1,
                            1 + steps as int,
                        );
                    }
                    Ok(OpKind::Lpf { alpha })
                } else {
                    Err(ResolveFault::BadParam)
                },
                None => Err(ResolveFault::BadParam),
            }
        } else {
            let named = str_eq(name, "+") || str_eq(name, "-") || str_eq(name, "*") || str_eq(
                name,
                "<",
            ) || str_eq(name, "dup") || str_eq(name, "swap") || str_eq(name, "drop") || str_eq(
                name,
                "noise",
            );
            let numeric = parse_sample(name).is_some();
            if named || numeric {
                Err(ResolveFault::BadParam)
            } else {
                Err(ResolveFault::Unknown)
            }
        }
    }
}

/// Configurations that resolution can produce are well formed.
pub open spec fn kind_ok(k: OpKind) -> bool {
    match k {
        OpKind::Sine { inc } => inc <= i64::MAX as u64,
        OpKind::Delay { len } => 1 <= len <= MAX_DELAY,
        OpKind::Lpf { alpha } => 0 <= alpha <= SAMPLE_UNIT,
        _ => true,
    }
}

/// A fresh state fits its kind.
proof fn lemma_fresh_ok(k: OpKind)
    requires
        kind_ok(k),
    ensures
        op_ok(k, fresh_view(k)),
{
}

/// Resolution only produces well-formed configurations.
proof fn lemma_resolve_kind_ok(t: Seq<char>, sr: u32)
    requires
        sr >= 1,
    ensures
        match resolve_spec(t, sr) {
            Ok(k) => kind_ok(k),
            Err(_) => true,
        },
{
    reveal(resolve_spec);
    let d = find_char(t, ':');
    let name = t.subrange(0, d);
    if d < t.len() {
        let param = t.subrange(d + 1, t.len() as int);
        if name == "sine"@ {
            if parse_spec(param) is Some {
                let v = decimal_val(param);
                if v >= 0 {
                    vstd::arithmetic::div_mod::lemma_div_basics(v);
                    vstd::arithmetic::div_mod::lemma_div_is_ordered_by_denominator(
                        v,
                        1,
                        sr as int,
                    );
                }
            }
        } else if name == "lpf"@ {
            if parse_spec(param) is Some {
                let v = decimal_val(param);
                if v >= 0 {
                    let steps = v * (sr as int) / (SAMPLE_UNIT as int);
                    vstd::arithmetic::mul::lemma_mul_nonnegative(v, sr as int);
                    vstd::arithmetic::div_mod::lemma_div_pos_is_pos(v * (sr as int), 1_000_000int);
                    vstd::arithmetic::div_mod::lemma_div_pos_is_pos(1_000_000int, 1 + steps);
                    vstd::arithmetic::div_mod::lemma_div_basics(1_000_000int);
                    vstd::arithmetic::div_mod::lemma_div_is_ordered_by_denominator(
                        1_000_000int,
                        1,
                        1 + steps,
                    );
                }
            }
        }
    }
}

// ------------------------------------------------------------------
// Context: the continuity arena
// ------------------------------------------------------------------

/// Live per-identity operator state, owned by the control side.  The
/// compiler consults it on every compile: an identity already present keeps
/// its state (continuity across edits); identities absent from the latest
/// token sequence are dropped.  Its model is a map from identity to state.
#[derive(Debug)]
pub struct Context {
    entries: Vec<(u64, OpState)>,
}

/// The map an entry list denotes (later entries win; entry lists are kept
/// duplicate-free).
pub open spec fn entries_map(s: Seq<(u64, OpState)>) -> Map<u64, StateView>
    decreases s.len(),
{
    if s.len() == 0 {
        Map::empty()
    } else {
        entries_map(s.drop_last()).insert(s.last().0, s.last().1@)
    }
}

/// No identity occurs twice.
pub open spec fn keys_distinct(s: Seq<(u64, OpState)>) -> bool {
    forall|i: int, j: int| 0 <= i < j < s.len() ==> (#[trigger] s[i]).0 != (#[trigger] s[j]).0
}

proof fn lemma_entries_map(s: Seq<(u64, OpState)>)
    ensures
        forall|k: u64|
            entries_map(s).contains_key(k) <==> exists|i: int|
                0 <= i < s.len() && (#[trigger] s[i]).0 == k,
        keys_distinct(s) ==> forall|i: int|
            0 <= i < s.len() ==> entries_map(s)[(#[trigger] s[i]).0] == s[i].1@,
    decreases s.len(),
{
    if s.len() > 0 {
        let pre = s.drop_last();
        lemma_entries_map(pre);
        assert forall|k: u64| entries_map(s).contains_key(k) implies exists|i: int|
            0 <= i < s.len() && (#[trigger] s[i]).0 == k by {
            if k == s.last().0 {
                assert((s[s.len() - 1]).0 == k);
            } else {
                assert(entries_map(pre).contains_key(k));
                let i = choose|i: int| 0 <= i < pre.len() && (#[trigger] pre[i]).0 == k;
                assert(pre[i] == s[i]);
                assert((s[i]).0 == k);
            }
        }
        assert forall|k: u64|
            (exists|i: int| 0 <= i < s.len() && (#[trigger] s[i]).0 == k) implies entries_map(
            s,
        ).contains_key(k) by {
            let i = choose|i: int| 0 <= i < s.len() && (#[trigger] s[i]).0 == k;
            if i < s.len() - 1 {
                assert(pre[i] == s[i]);
                assert((pre[i]).0 == k);
                assert(entries_map(pre).contains_key(k));
            } else {
                assert(k == s.last().0);
            }
        }
        if keys_distinct(s) {
            assert(keys_distinct(pre));
            assert forall|i: int|
                0 <= i < s.len() implies entries_map(s)[(#[trigger] s[i]).0] == s[i].1@ by {
                if i < s.len() - 1 {
                    assert((pre[i]).0 == s[i].0);
                    assert(s[i].0 != s.last().0);
                }
            }
        }
    }
}

impl View for Context {
    type V = Map<u64, StateView>;

    closed spec fn view(&self) -> Map<u64, StateView> {
        entries_map(self.entries@)
    }
}

impl Context {
    /// Entry keys are duplicate-free.
    pub closed spec fn wf(&self) -> bool {
        keys_distinct(self.entries@)
    }

    /// A fresh, empty context.
    pub fn new() -> (c: Context)
        ensures
            c@ == Map::<u64, StateView>::empty(),
            c.wf(),
    {
        let c = Context { entries: Vec::new() };
        proof {
            assert(c.entries@.len() == 0);
        }
        c
    }

    /// Whether this context holds state for an identity.
    pub fn contains(&self, id: u64) -> (r: bool)
        ensures
            r == self@.contains_key(id),
    {
        proof {
            lemma_entries_map(self.entries@);
        }
        let r = self.find(id);
        proof {
            if self@.contains_key(id) {
                let w = choose|w: int|
                    0 <= w < self.entries@.len() && (#[trigger] self.entries@[w]).0 == id;
                assert(r is Some);
            }
        }
        r.is_some()
    }

    /// Index of an identity's entry, if present.
    fn find(&self, id: u64) -> (r: Option<usize>)
        ensures
            match r {
                Some(i) => i < self.entries@.len() && self.entries@[i as int].0 == id,
                None => forall|i: int|
                    0 <= i < self.entries@.len() ==> (#[trigger] self.entries@[i]).0 != id,
            },
    {
        let n = self.entries.len();
        let mut i: usize = 0;
        while i < n
            invariant
                i <= n,
                n == self.entries@.len(),
                forall|m: int| 0 <= m < i ==> (#[trigger] self.entries@[m]).0 != id,
            decreases n - i,
        {
            if self.entries[i].0 == id {
                return Some(i);
            }
            i = i + 1;
        }
        None
    }
}

/// Deep copy of an operator state.
fn copy_state(st: &OpState) -> (r: OpState)
    ensures
        r@ == st@,
{
    match st {
        OpState::Stateless => OpState::Stateless,
        OpState::Phase { phase } => OpState::Phase { phase: *phase },
        OpState::Rng { seed } => OpState::Rng { seed: *seed },
        OpState::Memory { buf, ix } => {
            let n = buf.len();
            let mut b2: Vec<Sample> = Vec::new();
            let mut i: usize = 0;
            while i < n
                invariant
                    i <= n,
                    n == buf@.len(),
                    b2@ == buf@.subrange(0, i as int),
                decreases n - i,
            {
                b2.push(buf[i]);
                proof {
                    assert(b2@ =~= buf@.subrange(0, i + 1));
                }
                i = i + 1;
            }
            proof {
                assert(b2@ =~= buf@);
            }
            OpState::Memory { buf: b2, ix: *ix }
        },
        OpState::Smooth { y } => OpState::Smooth { y: *y },
    }
}

// ------------------------------------------------------------------
// Compilation
// ------------------------------------------------------------------

/// The state a resolved operator instance gets: the context's state for its
/// identity when one is present and fits the kind (continuity), a fresh one
/// otherwise.
pub open spec fn state_for(kind: OpKind, id: u64, ctx: Map<u64, StateView>) -> StateView {
    if spec_stateful(kind) && ctx.contains_key(id) && op_ok(kind, ctx[id]) {
        ctx[id]
    } else {
        fresh_view(kind)
    }
}

/// Token `j` resolves to a stateful operator.
pub open spec fn stateful_at(ts: Seq<TextOp>, sr: u32, j: int) -> bool {
    match resolve_spec(ts[j].op@, sr) {
        Ok(k) => spec_stateful(k),
        Err(_) => false,
    }
}

/// The kind token `i` resolves to (meaningful when resolution succeeds).
pub open spec fn kind_of(ts: Seq<TextOp>, sr: u32, i: int) -> OpKind {
    match resolve_spec(ts[i].op@, sr) {
        Ok(k) => k,
        Err(_) => OpKind::Noise,
    }
}

/// All tokens' kinds, in order.
pub open spec fn resolved_kinds(ts: Seq<TextOp>, sr: u32) -> Seq<OpKind> {
    Seq::new(ts.len(), |i: int| kind_of(ts, sr, i))
}

/// The context after compiling the first `i` tokens: exactly the stateful
/// tokens' identities, each mapped to the state its instance got.  Entries
/// for identities absent from the token sequence are dropped.
pub open spec fn ctx_after(ts: Seq<TextOp>, sr: u32, old_ctx: Map<u64, StateView>, i: int) -> Map<
    u64,
    StateView,
>
    decreases i,
{
    if i <= 0 {
        Map::empty()
    } else {
        let prev = ctx_after(ts, sr, old_ctx, i - 1);
        if stateful_at(ts, sr, i - 1) {
            prev.insert(ts[i - 1].id, state_for(kind_of(ts, sr, i - 1), ts[i - 1].id, old_ctx))
        } else {
            prev
        }
    }
}

/// The identities the compiled context holds are exactly those of the
/// stateful tokens.
pub proof fn lemma_ctx_after_dom(ts: Seq<TextOp>, sr: u32, m: Map<u64, StateView>, i: int)
    requires
        0 <= i <= ts.len(),
    ensures
        forall|k: u64|
            ctx_after(ts, sr, m, i).contains_key(k) <==> exists|j: int|
                0 <= j < i && #[trigger] stateful_at(ts, sr, j) && ts[j].id == k,
        forall|j: int|
            0 <= j < i && #[trigger] stateful_at(ts, sr, j) && (forall|j2: int|
                j < j2 < i ==> ts[j2].id != ts[j].id) ==> ctx_after(ts, sr, m, i)[ts[j].id]
                == state_for(kind_of(ts, sr, j), ts[j].id, m),
    decreases i,
{
    if i > 0 {
        lemma_ctx_after_dom(ts, sr, m, i - 1);
        assert forall|k: u64| ctx_after(ts, sr, m, i).contains_key(k) implies exists|j: int|
            0 <= j < i && #[trigger] stateful_at(ts, sr, j) && ts[j].id == k by {
            if stateful_at(ts, sr, i - 1) && ts[i - 1].id == k {
                assert(stateful_at(ts, sr, i - 1) && ts[i - 1].id == k);
            } else {
                let j = choose|j: int|
                    0 <= j < i - 1 && #[trigger] stateful_at(ts, sr, j) && ts[j].id == k;
                assert(stateful_at(ts, sr, j) && ts[j].id == k);
            }
        }
    }
}

/// Why a compilation was rejected, and at which token.
pub enum CompileFault {
    Unknown { at: int },
    BadParam { at: int },
    Underflow { at: int },
    Overflow { at: int },
    Insufficient,
}

/// A structured compile error, carrying the offending token's position and
/// identity.  A failed compile never touches the context or any installed
/// program: the previous program keeps playing.
#[derive(Debug)]
pub enum CompileError {
    /// The token's name is not in the operator registry.
    UnknownOperator { index: usize, id: u64, name: String },
    /// The token's parameter is missing, unreadable or out of range.
    InvalidParameter { index: usize, id: u64 },
    /// The operator would pop more samples than the stack holds there.
    StackUnderflow { index: usize, id: u64 },
    /// The stack would outgrow `MAX_STACK`.
    StackOverflow { index: usize, id: u64 },
    /// The final stack covers fewer than `CHANNELS` output channels.
    InsufficientOutputs { depth: usize },
}

/// The first fault a left-to-right scan finds from token `i` at running
/// stack depth `d`; the scan ends by demanding at least `CHANNELS` outputs.
pub open spec fn check_from(ts: Seq<TextOp>, sr: u32, i: int, d: int) -> Option<CompileFault>
    decreases ts.len() - i,
{
    if i < 0 || i >= ts.len() {
        if d >= CHANNELS {
            None
        } else {
            Some(CompileFault::Insufficient)
        }
    } else {
        match resolve_spec(ts[i].op@, sr) {
            Err(ResolveFault::Unknown) => Some(CompileFault::Unknown { at: i }),
            Err(ResolveFault::BadParam) => Some(CompileFault::BadParam { at: i }),
            Ok(k) => if d < spec_in_arity(k) {
                Some(CompileFault::Underflow { at: i })
            } else if d - spec_in_arity(k) + spec_out_arity(k) > MAX_STACK {
                Some(CompileFault::Overflow { at: i })
            } else {
                check_from(ts, sr, i + 1, d - spec_in_arity(k) + spec_out_arity(k))
            },
        }
    }
}

/// Whether (and why) a token sequence is rejected.
pub open spec fn check_spec(ts: Seq<TextOp>, sr: u32) -> Option<CompileFault> {
    check_from(ts, sr, 0, 0)
}

/// The returned error reports the fault the scan found, with the offending
/// token's position and identity.
pub open spec fn error_matches(e: CompileError, f: CompileFault, ts: Seq<TextOp>, sr: u32) -> bool {
    match (f, e) {
        (
            CompileFault::Unknown { at },
            CompileError::UnknownOperator { index, id, name },
        ) => index == at && id == ts[at].id && name@ == ts[at].op@.subrange(
            0,
            find_char(ts[at].op@, ':'),
        ),
        (CompileFault::BadParam { at }, CompileError::InvalidParameter { index, id }) => index
            == at && id == ts[at].id,
        (CompileFault::Underflow { at }, CompileError::StackUnderflow { index, id }) => index
            == at && id == ts[at].id,
        (CompileFault::Overflow { at }, CompileError::StackOverflow { index, id }) => index
            == at && id == ts[at].id,
        (CompileFault::Insufficient, CompileError::InsufficientOutputs { depth }) => depth
            == depth_at(resolved_kinds(ts, sr), ts.len() as int),
        _ => false,
    }
}

/// All token identities are distinct (editors assign each token a fresh
/// identity; one identity never stands for two operators at once).
pub open spec fn ids_distinct(ts: Seq<TextOp>) -> bool {
    forall|i: int, j: int| 0 <= i < j < ts.len() ==> ts[i].id != ts[j].id
}

/// Compile a token sequence into a program.
///
/// Resolves each token against the registry, checks the running stack depth
/// against every declared arity, reuses the context's state for stateful
/// tokens whose identity it already holds (continuity across edits), and
/// garbage-collects context entries whose identity no longer occurs.  On
/// success the program is well formed; on failure the context is untouched
/// and the error names the offending token.  Nothing here touches any
/// installed program.
#[verifier::rlimit(100)]
pub fn compile_program(ops: &Vec<TextOp>, sample_rate: u32, ctx: &mut Context) -> (r: Result<
    Program,
    CompileError,
>)
    requires
        sample_rate >= 1,
        old(ctx).wf(),
        ids_distinct(ops@),
    ensures
        final(ctx).wf(),
        match r {
            Ok(p) => {
                &&& check_spec(ops@, sample_rate) is None
                &&& p.wf()
                &&& p@.len() == ops@.len()
                &&& forall|i: int|
                    0 <= i < ops@.len() ==> {
                        &&& (#[trigger] p@[i]).kind == kind_of(ops@, sample_rate, i)
                        &&& p@[i].id == ops@[i].id
                        &&& p@[i].state == state_for(p@[i].kind, ops@[i].id, old(ctx)@)
                    }
                &&& final(ctx)@ == ctx_after(ops@, sample_rate, old(ctx)@, ops@.len() as int)
            },
            Err(e) => {
                &&& check_spec(ops@, sample_rate) is Some
                &&& match check_spec(ops@, sample_rate) {
                    Some(f) => error_matches(e, f, ops@, sample_rate),
                    None => false,
                }
                &&& final(ctx)@ == old(ctx)@
            },
        },
{
    let n = ops.len();
    let ghost rk = resolved_kinds(ops@, sample_rate);
    let mut kinds: Vec<OpKind> = Vec::new();
    let mut depth: usize = 0;
    let mut i: usize = 0;
    while i < n
        invariant
            i <= n,
            n == ops@.len(),
            sample_rate >= 1,
            ctx.wf(),
            ctx@ == old(ctx)@,
            rk == resolved_kinds(ops@, sample_rate),
            kinds@.len() == i,
            forall|j: int|
                0 <= j < i ==> resolve_spec(ops@[j].op@, sample_rate) == Ok::<
                    OpKind,
                    ResolveFault,
                >(#[trigger] kinds@[j]),
            forall|j: int| 0 <= j < i ==> #[trigger] kinds@[j] == rk[j],
            forall|j: int| 0 <= j < i ==> depth_at(rk, j) >= spec_in_arity(#[trigger] rk[j]),
            depth as int == depth_at(rk, i as int),
            depth <= MAX_STACK,
            check_spec(ops@, sample_rate) == check_from(
                ops@,
                sample_rate,
                i as int,
                depth as int,
            ),
        decreases n - i,
    {
        let tid = ops[i].id;
        match resolve(ops[i].op.as_str(), sample_rate) {
            Err(ResolveFault::Unknown) => {
                let name = name_part(ops[i].op.as_str());
                return Err(CompileError::UnknownOperator { index: i, id: tid, name });
            },
            Err(ResolveFault::BadParam) => {
                return Err(CompileError::InvalidParameter { index: i, id: tid });
            },
            Ok(k) => {
                let ia = in_arity(k);
                let oa = out_arity(k);
                if depth < ia {
                    return Err(CompileError::StackUnderflow { index: i, id: tid });
                }
                let nd = depth - ia + oa;
                if nd > MAX_STACK {
                    return Err(CompileError::StackOverflow { index: i, id: tid });
                }
                kinds.push(k);
                depth = nd;
            },
        }
        i = i + 1;
    }
    if depth < CHANNELS {
        return Err(CompileError::InsufficientOutputs { depth });
    }
    // every token resolved and every arity is satisfied: build the program
    // and the fresh context
    let ghost m0 = old(ctx)@;
    let mut prog_ops: Vec<Op> = Vec::new();
    let mut entries2: Vec<(u64, OpState)> = Vec::new();
    let mut b: usize = 0;
    while b < n
        invariant
            b <= n,
            n == ops@.len(),
            n == kinds@.len(),
            sample_rate >= 1,
            ids_distinct(ops@),
            ctx@ == m0,
            ctx.wf(),
            forall|j: int|
                0 <= j < n ==> resolve_spec(ops@[j].op@, sample_rate) == Ok::<
                    OpKind,
                    ResolveFault,
                >(#[trigger] kinds@[j]),
            prog_ops@.len() == b,
            forall|j: int|
                0 <= j < b ==> {
                    &&& (#[trigger] prog_ops@[j]).kind == kinds@[j]
                    &&& prog_ops@[j].id == ops@[j].id
                    &&& prog_ops@[j].state@ == state_for(kinds@[j], ops@[j].id, m0)
                    &&& op_ok(kinds@[j], prog_ops@[j].state@)
                },
            entries_map(entries2@) == ctx_after(ops@, sample_rate, m0, b as int),
            keys_distinct(entries2@),
        decreases n - b,
    {
        let k = kinds[b];
        let tid = ops[b].id;
        proof {
            assert(resolve_spec(ops@[b as int].op@, sample_rate) == Ok::<OpKind, ResolveFault>(
                k,
            ));
            lemma_resolve_kind_ok(ops@[b as int].op@, sample_rate);
            assert(kind_ok(k));
            lemma_fresh_ok(k);
            lemma_entries_map(ctx.entries@);
        }
        if stateful(k) {
            let st: OpState = match ctx.find(tid) {
                Some(ix) => {
                    proof {
                        assert(ctx.entries@[ix as int].0 == tid);
                        assert(ctx@.contains_key(tid));
                        assert(ctx@[tid] == ctx.entries@[ix as int].1@);
                    }
                    if state_fits(k, &ctx.entries[ix].1) {
                        copy_state(&ctx.entries[ix].1)
                    } else {
                        fresh_state(k)
                    }
                },
                None => {
                    proof {
                        if ctx@.contains_key(tid) {
                            let w = choose|w: int|
                                0 <= w < ctx.entries@.len() && (#[trigger] ctx.entries@[w]).0
                                    == tid;
                            assert(false);
                        }
                    }
                    fresh_state(k)
                },
            };
            proof {
                assert(st@ == state_for(k, tid, m0));
            }
            let st2 = copy_state(&st);
            proof {
                // the new identity is fresh among the collected entries
                lemma_entries_map(entries2@);
                lemma_ctx_after_dom(ops@, sample_rate, m0, b as int);
                assert forall|j: int| 0 <= j < entries2@.len() implies (
                #[trigger] entries2@[j]).0 != tid by {
                    assert(entries_map(entries2@).contains_key(entries2@[j].0));
                    let j2 = choose|j2: int|
                        0 <= j2 < b && #[trigger] stateful_at(ops@, sample_rate, j2)
                            && ops@[j2].id == entries2@[j].0;
                    assert(ops@[j2].id != ops@[b as int].id);
                }
            }
            let ghost prev_entries = entries2@;
            entries2.push((tid, st2));
            proof {
                assert(entries2@.drop_last() =~= prev_entries);
                assert(entries_map(entries2@) == ctx_after(
                    ops@,
                    sample_rate,
                    m0,
                    b as int + 1,
                ));
            }
            prog_ops.push(Op { kind: k, id: tid, state: st });
        } else {
            proof {
                assert(state_for(k, tid, m0) == fresh_view(k));
                assert(ctx_after(ops@, sample_rate, m0, b as int + 1) == ctx_after(
                    ops@,
                    sample_rate,
                    m0,
                    b as int,
                ));
            }
            prog_ops.push(Op { kind: k, id: tid, state: OpState::Stateless });
        }
        b = b + 1;
    }
    ctx.entries = entries2;
    let p = Program { ops: prog_ops };
    proof {
        assert(kinds_of(p@) =~= rk);
        assert forall|j: int| 0 <= j < n implies {
            &&& (#[trigger] p@[j]).kind == kind_of(ops@, sample_rate, j)
            &&& p@[j].id == ops@[j].id
            &&& p@[j].state == state_for(p@[j].kind, ops@[j].id, m0)
        } by {
            assert(p@[j] == prog_ops@[j]@);
        }
        assert(crate::vm::states_ok(p@));
        assert(p.wf());
    }
    Ok(p)
}

/// The per-identity states held by a program's stateful instances.
pub open spec fn program_states(ps: Seq<OpV>, i: int) -> Map<u64, StateView>
    decreases i,
{
    if i <= 0 {
        Map::empty()
    } else {
        let prev = program_states(ps, i - 1);
        if spec_stateful(ps[i - 1].kind) {
            prev.insert(ps[i - 1].id, ps[i - 1].state)
        } else {
            prev
        }
    }
}

proof fn lemma_program_states_dom(ps: Seq<OpV>, i: int)
    requires
        0 <= i <= ps.len(),
    ensures
        forall|k: u64|
            program_states(ps, i).contains_key(k) <==> exists|j: int|
                0 <= j < i && spec_stateful((#[trigger] ps[j]).kind) && ps[j].id == k,
    decreases i,
{
    if i > 0 {
        lemma_program_states_dom(ps, i - 1);
        assert forall|k: u64| program_states(ps, i).contains_key(k) implies exists|j: int|
            0 <= j < i && spec_stateful((#[trigger] ps[j]).kind) && ps[j].id == k by {
            if spec_stateful(ps[i - 1].kind) && ps[i - 1].id == k {
                assert(spec_stateful(ps[i - 1].kind) && ps[i - 1].id == k);
            } else {
                assert(program_states(ps, i - 1).contains_key(k));
                let j = choose|j: int|
                    0 <= j < i - 1 && spec_stateful((#[trigger] ps[j]).kind) && ps[j].id == k;
                assert(spec_stateful(ps[j].kind) && ps[j].id == k);
            }
        }
        assert forall|k: u64|
            (exists|j: int| 0 <= j < i && spec_stateful((#[trigger] ps[j]).kind) && ps[j].id
                == k) implies program_states(ps, i).contains_key(k) by {
            let j = choose|j: int|
                0 <= j < i && spec_stateful((#[trigger] ps[j]).kind) && ps[j].id == k;
            if j < i - 1 {
                assert(program_states(ps, i - 1).contains_key(k));
            }
        }
    }
}

impl Context {
    /// Snapshot the live states of a program's stateful instances into this
    /// context, replacing its entries.  The control side calls this before
    /// recompiling, so that edits continue from the states the running
    /// program has advanced to.
    pub fn sync(&mut self, program: &Program)
        requires
            forall|i: int, j: int|
                0 <= i < j < program@.len() ==> (#[trigger] program@[i]).id != (
                #[trigger] program@[j]).id,
        ensures
            final(self).wf(),
            final(self)@ == program_states(program@, program@.len() as int),
    {
        let n = program.ops.len();
        let mut entries2: Vec<(u64, OpState)> = Vec::new();
        let mut i: usize = 0;
        while i < n
            invariant
                i <= n,
                n == program@.len(),
                n == program.ops@.len(),
                forall|a: int, b: int|
                    0 <= a < b < program@.len() ==> (#[trigger] program@[a]).id != (
                    #[trigger] program@[b]).id,
                entries_map(entries2@) == program_states(program@, i as int),
                keys_distinct(entries2@),
            decreases n - i,
        {
            let op = &program.ops[i];
            proof {
                assert(program@[i as int] == program.ops@[i as int]@);
            }
            if stateful(op.kind) {
                let st = copy_state(&op.state);
                proof {
                    lemma_entries_map(entries2@);
                    lemma_program_states_dom(program@, i as int);
                    assert forall|j: int| 0 <= j < entries2@.len() implies (
                    #[trigger] entries2@[j]).0 != op.id by {
                        assert(entries_map(entries2@).contains_key(entries2@[j].0));
                        let j2 = choose|j2: int|
                            0 <= j2 < i && spec_stateful((#[trigger] program@[j2]).kind)
                                && program@[j2].id == entries2@[j].0;
                        assert(program@[j2].id != program@[i as int].id);
                    }
                }
                let ghost prev_entries = entries2@;
                entries2.push((op.id, st));
                proof {
                    assert(entries2@.drop_last() =~= prev_entries);
                }
            }
            i = i + 1;
        }
        self.entries = entries2;
    }
}

// ------------------------------------------------------------------
// Laws
// ------------------------------------------------------------------

/// Continuity: recompiling a token sequence in which a stateful operator's
/// identity is unchanged hands that operator's instance exactly the state
/// the context holds for the identity - an oscillator's phase continues
/// across the swap with no reset.
pub proof fn lemma_state_continuity(kind: OpKind, id: u64, ctx: Map<u64, StateView>)
    requires
        spec_stateful(kind),
        ctx.contains_key(id),
        op_ok(kind, ctx[id]),
    ensures
        state_for(kind, id, ctx) == ctx[id],
{
}

/// Garbage collection: after compiling a token sequence, an identity that
/// occurs in no token is absent from the context, whatever it held before -
/// state does not accumulate across repeated edits.
pub proof fn lemma_garbage_collected(
    ts: Seq<TextOp>,
    sr: u32,
    m: Map<u64, StateView>,
    id: u64,
)
    requires
        forall|j: int| 0 <= j < ts.len() ==> (#[trigger] ts[j]).id != id,
    ensures
        !ctx_after(ts, sr, m, ts.len() as int).contains_key(id),
{
    lemma_ctx_after_dom(ts, sr, m, ts.len() as int);
    if ctx_after(ts, sr, m, ts.len() as int).contains_key(id) {
        let j = choose|j: int|
            0 <= j < ts.len() && #[trigger] stateful_at(ts, sr, j) && ts[j].id == id;
        assert(false);
    }
}

// ------------------------------------------------------------------
// Operator metadata (for editors; no effect on compilation or execution)
// ------------------------------------------------------------------

/// One help line per operator name.
pub fn get_help() -> (help: Vec<(String, String)>)
    ensures
        help@.len() == 12,
{
    let mut help: Vec<(String, String)> = Vec::new();
    help.push(("+".to_owned(), "pop two samples, push their sum".to_owned()));
    help.push(("-".to_owned(), "pop two samples, push their difference".to_owned()));
    help.push(("*".to_owned(), "pop two samples, push their product".to_owned()));
    help.push(("<".to_owned(), "pop two samples, push 1 if the lower is less".to_owned()));
    help.push(("dup".to_owned(), "duplicate the top sample".to_owned()));
    help.push(("swap".to_owned(), "exchange the two top samples".to_owned()));
    help.push(("drop".to_owned(), "discard the top sample".to_owned()));
    help.push(("sine".to_owned(), "sine:freq pushes a sine wave at freq Hz".to_owned()));
    help.push(("noise".to_owned(), "pushes a fresh pseudo-random sample".to_owned()));
    help.push(("delay".to_owned(), "delay:secs echoes its input secs later".to_owned()));
    help.push(("lpf".to_owned(), "lpf:secs smooths its input over secs".to_owned()));
    help.push(("1.0".to_owned(), "a numeric literal pushes that constant".to_owned()));
    help
}

/// Operator names by group.
pub fn get_op_groups() -> (groups: Vec<(String, Vec<String>)>)
    ensures
        groups@.len() == 4,
{
    let mut groups: Vec<(String, Vec<String>)> = Vec::new();
    let mut arith: Vec<String> = Vec::new();
    arith.push("+".to_owned());
    arith.push("-".to_owned());
    arith.push("*".to_owned());
    arith.push("<".to_owned());
    groups.push(("arithmetic".to_owned(), arith));
    let mut shuffle: Vec<String> = Vec::new();
    shuffle.push("dup".to_owned());
    shuffle.push("swap".to_owned());
    shuffle.push("drop".to_owned());
    groups.push(("stack".to_owned(), shuffle));
    let mut generators: Vec<String> = Vec::new();
    generators.push("sine".to_owned());
    generators.push("noise".to_owned());
    groups.push(("generators".to_owned(), generators));
    let mut filters: Vec<String> = Vec::new();
    filters.push("delay".to_owned());
    filters.push("lpf".to_owned());
    groups.push(("filters".to_owned(), filters));
    groups
}

} // verus!
