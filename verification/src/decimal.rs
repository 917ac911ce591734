//! Locale-aware fixed-point decimal parsing.
//!
//! Source numbers use `.` as a thousands separator and `,` as the decimal
//! marker (`"1.234,56"` is one thousand two hundred thirty-four and
//! fifty-six hundredths). A parsed number is held in millionths of a unit,
//! so `"1.234,56"` parses to `1_234_560_000`.
//!
//! The accepted shape is: optional surrounding ASCII whitespace, then
//! digits freely grouped by `.`, then optionally one `,` followed by
//! fraction digits (again with `.` ignored), with at least one digit in
//! all. Fraction digits beyond the sixth are truncated. A value that does
//! not fit the 64-bit fixed-point range is rejected.

use vstd::prelude::*;

use crate::error::EngineError;
use crate::text::all_digits;
use crate::text::dec_rep;
use crate::text::digit_char;
use crate::text::digit_str;
use crate::text::digit_val;
use crate::text::digits_val;
use crate::text::is_digit;
use crate::text::lemma_digits_val_nonneg;
use crate::text::lemma_digits_val_push;
use crate::text::pow10;
use crate::text::str_chars;
use crate::text::u64_to_string;

verus! {

/// Fixed-point ticks per unit: prices and volumes are held in millionths.
pub const SCALE: u64 = 1_000_000;

/// Whether `c` counts as trimmable whitespace.
pub open spec fn is_ws(c: char) -> bool {
    c == ' ' || c == '\t' || c == '\r' || c == '\n'
}

/// `s` with leading whitespace removed.
pub open spec fn trim_left(s: Seq<char>) -> Seq<char>
    decreases s.len(),
{
    if s.len() > 0 && is_ws(s[0]) {
        trim_left(s.drop_first())
    } else {
        s
    }
}

/// `s` with trailing whitespace removed.
pub open spec fn trim_right(s: Seq<char>) -> Seq<char>
    decreases s.len(),
{
    if s.len() > 0 && is_ws(s.last()) {
        trim_right(s.drop_last())
    } else {
        s
    }
}

/// `s` with surrounding whitespace removed.
pub open spec fn trim_spec(s: Seq<char>) -> Seq<char> {
    trim_right(trim_left(s))
}

/// `s` with every `.` removed.
pub open spec fn strip_dots(s: Seq<char>) -> Seq<char>
    decreases s.len(),
{
    if s.len() == 0 {
        Seq::empty()
    } else if s.last() == '.' {
        strip_dots(s.drop_last())
    } else {
        strip_dots(s.drop_last()).push(s.last())
    }
}

/// Index of the first `,` in `s`, or `s.len()` if there is none.
pub open spec fn first_comma(s: Seq<char>) -> int
    decreases s.len(),
{
    if s.len() == 0 {
        0
    } else if s[0] == ',' {
        0
    } else {
        1 + first_comma(s.drop_first())
    }
}

/// The digits before the decimal comma, separators removed.
pub open spec fn int_digits(s: Seq<char>) -> Seq<char> {
    let t = strip_dots(trim_spec(s));
    t.take(first_comma(t))
}

/// The digits after the decimal comma, separators removed.
pub open spec fn frac_digits(s: Seq<char>) -> Seq<char> {
    let t = strip_dots(trim_spec(s));
    if first_comma(t) < t.len() {
        t.skip(first_comma(t) + 1)
    } else {
        Seq::empty()
    }
}

/// Whether `s` is a well-formed locale decimal: after trimming and
/// dropping `.`, a digit string, at most one `,`, and at least one digit.
pub open spec fn valid_decimal(s: Seq<char>) -> bool {
    &&& all_digits(int_digits(s))
    &&& all_digits(frac_digits(s))
    &&& int_digits(s).len() + frac_digits(s).len() >= 1
}

/// The first six fraction digits; later ones are beyond the tick size.
pub open spec fn frac_kept(s: Seq<char>) -> Seq<char> {
    let f = frac_digits(s);
    if f.len() <= 6 {
        f
    } else {
        f.take(6)
    }
}

/// The value of `s` in millionths of a unit.
pub open spec fn decimal_micros(s: Seq<char>) -> int {
    digits_val(int_digits(s)) * (SCALE as int) + digits_val(frac_kept(s)) * pow10(
        (6 - frac_kept(s).len()) as nat,
    )
}

/// Whether parsing `s` succeeds: the shape is valid and the value fits.
pub open spec fn decimal_parses(s: Seq<char>) -> bool {
    valid_decimal(s) && decimal_micros(s) <= u64::MAX
}

/// The detail carried by a decimal parse error for input `s`.
pub open spec fn decimal_err_detail(s: Seq<char>) -> Seq<char> {
    "Failed to parse decimal '"@ + s + "'"@
}

proof fn lemma_trim_left_skip(s: Seq<char>, a: int)
    requires
        0 <= a <= s.len(),
        forall|j: int| 0 <= j < a ==> is_ws(#[trigger] s[j]),
        a < s.len() ==> !is_ws(s[a]),
    ensures
        trim_left(s) == s.skip(a),
    decreases a,
{
    if a == 0 {
        assert(s.skip(0) =~= s);
    } else {
        assert(is_ws(s[0]));
        lemma_trim_left_skip(s.drop_first(), a - 1);
        assert(s.drop_first().skip(a - 1) =~= s.skip(a));
    }
}

proof fn lemma_trim_right_take(s: Seq<char>, b: int)
    requires
        0 <= b <= s.len(),
        forall|j: int| b <= j < s.len() ==> is_ws(#[trigger] s[j]),
        b > 0 ==> !is_ws(s[b - 1]),
    ensures
        trim_right(s) == s.take(b),
    decreases s.len(),
{
    if b == s.len() {
        if s.len() > 0 {
            assert(!is_ws(s.last()));
        }
        assert(s.take(b) =~= s);
    } else {
        assert(is_ws(s.last()));
        lemma_trim_right_take(s.drop_last(), b);
        assert(s.drop_last().take(b) =~= s.take(b));
    }
}

proof fn lemma_strip_dots_push(s: Seq<char>, c: char)
    ensures
        strip_dots(s.push(c)) == if c == '.' {
            strip_dots(s)
        } else {
            strip_dots(s).push(c)
        },
{
    assert(s.push(c).drop_last() =~= s);
    assert(s.push(c).last() == c);
}

proof fn lemma_first_comma_at(s: Seq<char>, i: int)
    requires
        0 <= i <= s.len(),
        forall|j: int| 0 <= j < i ==> #[trigger] s[j] != ',',
        i < s.len() ==> s[i] == ',',
    ensures
        first_comma(s) == i,
    decreases i,
{
    if i == 0 {
    } else {
        assert(s[0] != ',');
        lemma_first_comma_at(s.drop_first(), i - 1);
    }
}

/// A digit string of length `n` is worth less than ten to the `n`.
pub(crate) proof fn lemma_digits_val_bound(s: Seq<char>)
    requires
        all_digits(s),
    ensures
        digits_val(s) < pow10(s.len() as nat),
    decreases s.len(),
{
    if s.len() > 0 {
        assert(all_digits(s.drop_last()));
        lemma_digits_val_bound(s.drop_last());
        assert(digits_val(s.drop_last()) <= pow10((s.len() - 1) as nat) - 1);
        assert(digits_val(s.drop_last()) * 10 <= (pow10((s.len() - 1) as nat) - 1) * 10)
            by (nonlinear_arith)
            requires
                digits_val(s.drop_last()) <= pow10((s.len() - 1) as nat) - 1,
        ;
        assert(is_digit(s.last())) by {
            assert(s[s.len() - 1] == s.last());
        }
        assert(digit_val(s.last()) <= 9);
    }
}

/// Scans the digit region `[from, to)` of `v`. Reports whether every
/// character there is a digit, whether the value exceeds the 64-bit
/// range, and if not, the value itself.
pub(crate) fn digits_value(v: &Vec<char>, from: usize, to: usize) -> (r: (bool, bool, u64))
    requires
        from <= to <= v@.len(),
    ensures
        r.0 == all_digits(v@.subrange(from as int, to as int)),
        r.0 && !r.1 ==> r.2 == digits_val(v@.subrange(from as int, to as int)) && digits_val(
            v@.subrange(from as int, to as int),
        ) <= u64::MAX,
        r.0 && r.1 ==> digits_val(v@.subrange(from as int, to as int)) > u64::MAX,
{
    let ghost whole = v@.subrange(from as int, to as int);
    let mut i: usize = from;
    let mut val: u64 = 0;
    let mut over: bool = false;
    while i < to
        invariant
            from <= i <= to <= v@.len(),
            whole == v@.subrange(from as int, to as int),
            all_digits(v@.subrange(from as int, i as int)),
            !over ==> val == digits_val(v@.subrange(from as int, i as int)),
            over ==> digits_val(v@.subrange(from as int, i as int)) > u64::MAX,
        decreases to - i,
    {
        let ghost pre = v@.subrange(from as int, i as int);
        let c = v[i];
        let cv = c as u32;
        if !(48 <= cv && cv <= 57) {
            assert(!is_digit(whole[i - from]));
            return (false, false, 0);
        }
        let d: u64 = (cv - 48) as u64;
        proof {
            assert(v@.subrange(from as int, i + 1) =~= pre.push(c));
            lemma_digits_val_push(pre, c);
            assert(all_digits(pre.push(c))) by {
                assert(forall|j: int|
                    0 <= j < pre.len() ==> #[trigger] pre.push(c)[j] == pre[j]);
            }
        }
        if !over {
            if val > (u64::MAX - d) / 10 {
                proof {
                    vstd::arithmetic::div_mod::lemma_fundamental_div_mod(
                        (u64::MAX - d) as int,
                        10,
                    );
                    lemma_digits_val_nonneg(pre);
                }
                over = true;
            } else {
                proof {
                    vstd::arithmetic::div_mod::lemma_fundamental_div_mod(
                        (u64::MAX - d) as int,
                        10,
                    );
                    assert(val * 10 <= ((u64::MAX - d) / 10) * 10) by (nonlinear_arith)
                        requires
                            val <= (u64::MAX - d) / 10,
                    ;
                }
                val = val * 10 + d;
            }
        } else {
            proof {
                assert(digits_val(pre) * 10 > u64::MAX) by (nonlinear_arith)
                    requires
                        digits_val(pre) > u64::MAX,
                ;
                assert(digit_val(c) >= 0);
            }
        }
        i += 1;
    }
    (true, over, val)
}

/// Ten to the power `e` for small `e`.
fn pow10_u64(e: usize) -> (r: u64)
    requires
        e <= 6,
    ensures
        r == pow10(e as nat),
{
    proof {
        reveal_with_fuel(pow10, 8);
    }
    if e == 0 {
        1
    } else if e == 1 {
        10
    } else if e == 2 {
        100
    } else if e == 3 {
        1_000
    } else if e == 4 {
        10_000
    } else if e == 5 {
        100_000
    } else {
        1_000_000
    }
}

/// Parses a locale decimal (`.` groups thousands, `,` marks the decimal
/// point) into millionths of a unit. Succeeds exactly on well-formed
/// inputs whose value fits the fixed-point range.
pub fn parse_decimal(s: &str) -> (r: Result<u64, EngineError>)
    ensures
        r is Ok <==> decimal_parses(s@),
        r matches Ok(v) ==> v == decimal_micros(s@),
        r matches Err(e) ==> e matches EngineError::CsvDataFormatError(m) && m@
            == decimal_err_detail(s@),
{
    let cs = str_chars(s);
    let n = cs.len();

    // Trim surrounding whitespace.
    let mut a: usize = 0;
    while a < n && is_ws_exec(cs[a])
        invariant
            a <= n,
            n == cs@.len(),
            cs@ == s@,
            forall|j: int| 0 <= j < a ==> is_ws(#[trigger] cs@[j]),
        decreases n - a,
    {
        a += 1;
    }
    let mut b: usize = n;
    while b > a && is_ws_exec(cs[b - 1])
        invariant
            a <= b <= n,
            n == cs@.len(),
            cs@ == s@,
            forall|j: int| 0 <= j < a ==> is_ws(#[trigger] cs@[j]),
            a < n ==> !is_ws(cs@[a as int]),
            forall|j: int| b <= j < n ==> is_ws(#[trigger] cs@[j]),
        decreases b,
    {
        b -= 1;
    }
    let ghost trimmed = s@.subrange(a as int, b as int);
    proof {
        lemma_trim_left_skip(s@, a as int);
        let u = s@.skip(a as int);
        lemma_trim_right_take(u, b - a);
        assert(u.take(b - a) =~= trimmed);
        assert(trim_spec(s@) == trimmed);
    }

    // Drop every '.' from the trimmed region.
    let mut t: Vec<char> = Vec::new();
    let mut i: usize = a;
    while i < b
        invariant
            a <= i <= b <= n,
            n == cs@.len(),
            cs@ == s@,
            trimmed == s@.subrange(a as int, b as int),
            t@ == strip_dots(trimmed.take(i - a)),
        decreases b - i,
    {
        let c = cs[i];
        proof {
            assert(trimmed.take(i + 1 - a) =~= trimmed.take(i - a).push(s@[i as int]));
            lemma_strip_dots_push(trimmed.take(i - a), s@[i as int]);
        }
        if c != '.' {
            t.push(c);
        }
        i += 1;
    }
    proof {
        assert(trimmed.take(b - a) =~= trimmed);
    }
    let tn = t.len();

    // Find the decimal comma, if any.
    let mut ci: usize = 0;
    while ci < tn && t[ci] != ','
        invariant
            ci <= tn,
            tn == t@.len(),
            forall|j: int| 0 <= j < ci ==> #[trigger] t@[j] != ',',
        decreases tn - ci,
    {
        ci += 1;
    }
    proof {
        lemma_first_comma_at(t@, ci as int);
        assert(t@.take(ci as int) =~= t@.subrange(0, ci as int));
    }

    // Value and digit check of the integer part.
    let (int_ok, int_over, int_val) = digits_value(&t, 0, ci);

    // Value and digit check of the fraction part.
    let mut frac_ok: bool = true;
    let mut frac_val: u64 = 0;
    let mut frac_len: usize = 0;
    if ci < tn {
        let fstart = ci + 1;
        proof {
            assert(t@.subrange(fstart as int, tn as int) =~= t@.skip(ci + 1));
        }
        let fend = if tn - fstart > 6 {
            fstart + 6
        } else {
            tn
        };
        let (ok_kept, kept_over, kept_val) = digits_value(&t, fstart, fend);
        let (ok_rest, _, _) = digits_value(&t, fend, tn);
        frac_len = fend - fstart;
        frac_ok = ok_kept && ok_rest;
        let scale = pow10_u64(6 - frac_len);
        proof {
            let f = frac_digits(s@);
            let kept = t@.subrange(fstart as int, fend as int);
            let rest = t@.subrange(fend as int, tn as int);
            assert(f =~= kept + rest);
            assert(frac_kept(s@) =~= kept) by {
                if f.len() <= 6 {
                    assert(kept =~= f);
                } else {
                    assert(f.take(6) =~= kept);
                }
            }
            assert(all_digits(f) == (all_digits(kept) && all_digits(rest))) by {
                if all_digits(f) {
                    assert(forall|j: int|
                        0 <= j < kept.len() ==> #[trigger] kept[j] == f[j]);
                    assert(forall|j: int|
                        0 <= j < rest.len() ==> #[trigger] rest[j] == f[j + kept.len()]);
                }
                if all_digits(kept) && all_digits(rest) {
                    assert(forall|j: int| 0 <= j < f.len() ==> is_digit(#[trigger] f[j]))
                        by {
                        assert(forall|j: int|
                            0 <= j < f.len() ==> f[j] == if j < kept.len() {
                                kept[j]
                            } else {
                                rest[j - kept.len()]
                            });
                    }
                }
            }
            if ok_kept {
                lemma_digits_val_bound(kept);
                if !kept_over {
                    assert(kept_val * scale < 1_000_000) by {
                        assert(pow10((frac_len) as nat) * pow10((6 - frac_len) as nat)
                            == pow10(6)) by {
                            lemma_pow10_add(frac_len as nat, (6 - frac_len) as nat);
                        }
                        lemma_pow10_6();
                        lemma_pow10_pos((6 - frac_len) as nat);
                        assert(kept_val * pow10((6 - frac_len) as nat) < pow10(
                            frac_len as nat,
                        ) * pow10((6 - frac_len) as nat)) by (nonlinear_arith)
                            requires
                                kept_val < pow10(frac_len as nat),
                                pow10((6 - frac_len) as nat) >= 1,
                        ;
                    }
                } else {
                    // Six digits cannot exceed the 64-bit range.
                    lemma_pow10_6();
                    lemma_pow10_pos((6 - frac_len) as nat);
                    assert(digits_val(kept) < pow10(frac_len as nat));
                    assert(pow10(frac_len as nat) * pow10((6 - frac_len) as nat) == pow10(6))
                        by {
                        lemma_pow10_add(frac_len as nat, (6 - frac_len) as nat);
                    }
                    assert(pow10(frac_len as nat) <= pow10(6)) by (nonlinear_arith)
                        requires
                            pow10(frac_len as nat) * pow10((6 - frac_len) as nat) == pow10(6),
                            pow10(frac_len as nat) >= 1,
                            pow10((6 - frac_len) as nat) >= 1,
                    ;
                    assert(false);
                }
            }
        }
        frac_val = if ok_kept && !kept_over {
            kept_val * scale
        } else {
            0
        };
    } else {
        proof {
            assert(frac_digits(s@) =~= Seq::<char>::empty());
            assert(frac_kept(s@) =~= Seq::<char>::empty());
            lemma_pow10_6();
        }
        frac_val = 0;
        frac_len = 0;
    }

    let digit_count_ok = ci > 0 || (ci < tn && tn > ci + 1);
    proof {
        assert(int_digits(s@) =~= t@.subrange(0, ci as int));
        assert(int_digits(s@).len() == ci);
        if ci < tn {
            assert(frac_digits(s@).len() == tn - ci - 1);
        }
    }

    if !(int_ok && frac_ok && digit_count_ok) {
        return Err(EngineError::CsvDataFormatError(decimal_err_string(s)));
    }
    if int_over {
        proof {
            lemma_digits_val_nonneg(frac_kept(s@));
            lemma_pow10_pos((6 - frac_kept(s@).len()) as nat);
            assert(digits_val(frac_kept(s@)) * pow10((6 - frac_kept(s@).len()) as nat)
                >= 0) by (nonlinear_arith)
                requires
                    digits_val(frac_kept(s@)) >= 0,
                    pow10((6 - frac_kept(s@).len()) as nat) >= 1,
            ;
            assert(digits_val(int_digits(s@)) * (SCALE as int) > u64::MAX)
                by (nonlinear_arith)
                requires
                    digits_val(int_digits(s@)) > u64::MAX,
            ;
        }
        return Err(EngineError::CsvDataFormatError(decimal_err_string(s)));
    }

    // Assemble the fixed-point value, watching the 64-bit range.
    let total: u128 = (int_val as u128) * (SCALE as u128) + (frac_val as u128);
    proof {
        assert((int_val as int) * (SCALE as int) + (frac_val as int) == decimal_micros(
            s@,
        ));
        assert((int_val as u128) * (SCALE as u128) <= (u64::MAX as u128) * (SCALE as u128))
            by (nonlinear_arith)
            requires
                int_val <= u64::MAX,
        ;
    }
    if total > u64::MAX as u128 {
        return Err(EngineError::CsvDataFormatError(decimal_err_string(s)));
    }
    Ok(total as u64)
}

/// Parses a volume field; volumes follow the same locale convention.
pub fn parse_volume(s: &str) -> (r: Result<u64, EngineError>)
    ensures
        r is Ok <==> decimal_parses(s@),
        r matches Ok(v) ==> v == decimal_micros(s@),
        r matches Err(e) ==> e matches EngineError::CsvDataFormatError(m) && m@
            == decimal_err_detail(s@),
{
    parse_decimal(s)
}

/// Whether `s` is a well-formed trade count: digits grouped by `.`, no
/// comma, no surrounding whitespace, at least one digit.
pub open spec fn valid_trades(s: Seq<char>) -> bool {
    all_digits(strip_dots(s)) && strip_dots(s).len() >= 1
}

/// The value of a trade-count string.
pub open spec fn trades_val(s: Seq<char>) -> int {
    digits_val(strip_dots(s))
}

/// Parses a trade count: an unsigned integer whose digits may be grouped
/// by `.`. Succeeds exactly on well-formed counts that fit 32 bits.
pub fn parse_trades(s: &str) -> (r: Option<u32>)
    ensures
        r is Some <==> valid_trades(s@) && trades_val(s@) <= u32::MAX,
        r matches Some(v) ==> v == trades_val(s@),
{
    let cs = str_chars(s);
    let n = cs.len();
    let mut t: Vec<char> = Vec::new();
    let mut i: usize = 0;
    while i < n
        invariant
            i <= n,
            n == cs@.len(),
            cs@ == s@,
            t@ == strip_dots(s@.take(i as int)),
        decreases n - i,
    {
        let c = cs[i];
        proof {
            assert(s@.take(i + 1) =~= s@.take(i as int).push(s@[i as int]));
            lemma_strip_dots_push(s@.take(i as int), s@[i as int]);
        }
        if c != '.' {
            t.push(c);
        }
        i += 1;
    }
    proof {
        assert(s@.take(n as int) =~= s@);
    }
    let tn = t.len();
    proof {
        assert(t@.subrange(0, tn as int) =~= t@);
    }
    let (ok, over, val) = digits_value(&t, 0, tn);
    if !ok || tn == 0 {
        return None;
    }
    if over || val > u32::MAX as u64 {
        return None;
    }
    Some(val as u32)
}

/// The rendering of a fixed-point price with two decimal places,
/// truncated: integer part, a dot, then hundredths.
pub open spec fn price_rep(p: int) -> Seq<char> {
    dec_rep(p / (SCALE as int)) + seq![
        '.',
        digit_char((p % (SCALE as int)) / 100_000),
        digit_char(((p % (SCALE as int)) / 10_000) % 10),
    ]
}

/// Renders a fixed-point price with two decimal places.
pub fn price_string(p: u64) -> (r: String)
    ensures
        r@ == price_rep(p as int),
{
    let mut s = u64_to_string(p / SCALE);
    proof {
        reveal_strlit(".");
    }
    s.append(".");
    let rem = p % SCALE;
    s.append(digit_str(rem / 100_000));
    s.append(digit_str((rem / 10_000) % 10));
    proof {
        assert(dec_rep((p / SCALE) as int) + "."@ + seq![
            digit_char((rem / 100_000) as int),
        ] + seq![digit_char(((rem / 10_000) % 10) as int)] =~= price_rep(p as int));
    }
    s
}

/// Whether `c` is trimmable whitespace.
fn is_ws_exec(c: char) -> (r: bool)
    ensures
        r == is_ws(c),
{
    c == ' ' || c == '\t' || c == '\r' || c == '\n'
}

/// The parse-failure detail for input `s`.
fn decimal_err_string(s: &str) -> (r: String)
    ensures
        r@ == decimal_err_detail(s@),
{
    let mut m = String::from_str("Failed to parse decimal '");
    m.append(s);
    m.append("'");
    m
}

proof fn lemma_pow10_pos(e: nat)
    ensures
        pow10(e) >= 1,
    decreases e,
{
    if e > 0 {
        lemma_pow10_pos((e - 1) as nat);
    }
}

proof fn lemma_pow10_6()
    ensures
        pow10(6) == 1_000_000,
{
    reveal_with_fuel(pow10, 8);
}

proof fn lemma_pow10_add(a: nat, b: nat)
    ensures
        pow10(a) * pow10(b) == pow10(a + b),
    decreases a,
{
    if a == 0 {
        assert(pow10(0) == 1);
    } else {
        lemma_pow10_add((a - 1) as nat, b);
        assert(pow10(a) == 10 * pow10((a - 1) as nat));
        assert((10 * pow10((a - 1) as nat)) * pow10(b) == 10 * (pow10((a - 1) as nat)
            * pow10(b))) by (nonlinear_arith);
        assert(pow10(a + b) == 10 * pow10((a + b - 1) as nat));
    }
}

} // verus!
