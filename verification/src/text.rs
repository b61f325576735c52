//! Reading text byte by byte: blanks, decimal columns, and cutting UTF-8 text
//! where a character ends.

use vstd::prelude::*;
use vstd::string::StringSliceAdditionalSpecFns;
use vstd::utf8::{
    encode_utf8_valid_utf8, is_char_boundary, is_char_boundary_iff_not_is_continuation_byte,
    is_char_boundary_start_end_of_seq, valid_utf8, valid_utf8_split,
};

verus! {

/// ASCII decimal digit.
pub open spec fn is_digit(b: u8) -> bool {
    48 <= b <= 57
}

/// Blank as trimmed from the ends of a column: space, tab, line feed, vertical
/// tab, form feed, carriage return.
pub open spec fn is_blank(b: u8) -> bool {
    b == 32 || 9 <= b <= 13
}

/// Every byte of `s` is a single-byte character.
pub open spec fn all_ascii(s: Seq<u8>) -> bool {
    forall|i: int| 0 <= i < s.len() ==> #[trigger] s[i] < 128
}

/// Whether every byte of `s` is a single-byte character.
pub fn is_ascii_text(s: &[u8]) -> (r: bool)
    ensures
        r == all_ascii(s@),
{
    let mut i: usize = 0;
    while i < s.len()
        invariant
            i <= s@.len(),
            forall|k: int| 0 <= k < i ==> #[trigger] s@[k] < 128,
        decreases s@.len() - i,
    {
        if s[i] >= 128 {
            return false;
        }
        i = i + 1;
    }
    true
}

/// Every byte of `s` is a digit.
pub open spec fn all_digits(s: Seq<u8>) -> bool {
    forall|i: int| 0 <= i < s.len() ==> is_digit(#[trigger] s[i])
}

/// Value of a run of decimal digits, most significant first.
pub open spec fn digits_value(s: Seq<u8>) -> nat
    decreases s.len(),
{
    if s.len() == 0 {
        0
    } else {
        digits_value(s.drop_last()) * 10 + (s.last() - 48) as nat
    }
}

/// Number of blanks at the front of `s`.
pub open spec fn leading_blanks(s: Seq<u8>) -> nat
    decreases s.len(),
{
    if s.len() > 0 && is_blank(s[0]) {
        1 + leading_blanks(s.drop_first())
    } else {
        0
    }
}

/// Number of blanks at the back of `s`.
pub open spec fn trailing_blanks(s: Seq<u8>) -> nat
    decreases s.len(),
{
    if s.len() > 0 && is_blank(s.last()) {
        1 + trailing_blanks(s.drop_last())
    } else {
        0
    }
}

/// `s` without the blanks at either end.
pub open spec fn trimmed(s: Seq<u8>) -> Seq<u8> {
    let front = s.skip(leading_blanks(s) as int);
    front.take(front.len() - trailing_blanks(front))
}

/// The bounds of `trimmed(s)` inside `s`: the trimmed text is
/// `s.subrange(start, end)`.
pub fn trim_bounds(s: &[u8]) -> (r: (usize, usize))
    ensures
        r.0 <= r.1 <= s@.len(),
        s@.subrange(r.0 as int, r.1 as int) == trimmed(s@),
        r.0 == leading_blanks(s@),
        s@.len() - r.1 == trailing_blanks(s@.skip(r.0 as int)),
{
    let n = s.len();
    let mut start: usize = 0;
    assert(s@.skip(0) =~= s@);
    while start < n && is_blank_byte(s[start])
        invariant
            start <= n,
            n == s@.len(),
            leading_blanks(s@) == start + leading_blanks(s@.skip(start as int)),
        decreases n - start,
    {
        proof {
            let rest = s@.skip(start as int);
            assert(rest[0] == s@[start as int]);
            assert(rest.drop_first() =~= s@.skip(start + 1));
        }
        start = start + 1;
    }
    proof {
        let rest = s@.skip(start as int);
        if start < n {
            assert(rest[0] == s@[start as int]);
        }
        assert(leading_blanks(rest) == 0);
    }
    let ghost front = s@.skip(start as int);
    let mut end: usize = n;
    assert(front.take(n - start) =~= front);
    while end > start && is_blank_byte(s[end - 1])
        invariant
            start <= end <= n,
            n == s@.len(),
            front == s@.skip(start as int),
            trailing_blanks(front) == (n - end) + trailing_blanks(front.take(end - start)),
        decreases end,
    {
        proof {
            let cur = front.take(end - start);
            assert(cur.last() == s@[end - 1]);
            assert(cur.drop_last() =~= front.take(end - 1 - start));
        }
        end = end - 1;
    }
    proof {
        let cur = front.take(end - start);
        if end > start {
            assert(cur.last() == s@[end - 1]);
        }
        assert(trailing_blanks(cur) == 0);
        assert(s@.subrange(start as int, end as int) =~= front.take(end - start));
    }
    (start, end)
}

/// Around the trimmed part of `s` stand blanks.
pub proof fn lemma_trim_bounds_blank(s: Seq<u8>, start: int, end: int)
    requires
        0 <= start <= end <= s.len(),
        start == leading_blanks(s),
        s.len() - end == trailing_blanks(s.skip(start)),
    ensures
        start > 0 ==> is_blank(s[start - 1]),
        end < s.len() ==> is_blank(s[end]),
{
    lemma_leading_blanks_last(s);
    lemma_trailing_blanks_first(s.skip(start));
    if end < s.len() {
        assert(s.skip(start)[end - start] == s[end]);
    }
}

/// The last of the blanks at the front is a blank.
pub proof fn lemma_leading_blanks_last(s: Seq<u8>)
    ensures
        leading_blanks(s) <= s.len(),
        leading_blanks(s) > 0 ==> is_blank(s[leading_blanks(s) - 1]),
    decreases s.len(),
{
    if s.len() > 0 && is_blank(s[0]) {
        let t = s.drop_first();
        lemma_leading_blanks_last(t);
        if leading_blanks(t) > 0 {
            assert(t[leading_blanks(t) - 1] == s[leading_blanks(t) as int]);
        }
    }
}

/// The first of the blanks at the back is a blank.
pub proof fn lemma_trailing_blanks_first(s: Seq<u8>)
    ensures
        trailing_blanks(s) <= s.len(),
        trailing_blanks(s) > 0 ==> is_blank(s[s.len() - trailing_blanks(s)]),
    decreases s.len(),
{
    if s.len() > 0 && is_blank(s.last()) {
        let t = s.drop_last();
        lemma_trailing_blanks_first(t);
        if trailing_blanks(t) > 0 {
            assert(t[t.len() - trailing_blanks(t)] == s[t.len() - trailing_blanks(t)]);
        }
    }
}

/// Whether the byte is a blank.
pub fn is_blank_byte(b: u8) -> (r: bool)
    ensures
        r == is_blank(b),
{
    b == 32 || (9 <= b && b <= 13)
}

/// Whether the byte is a decimal digit.
pub fn is_digit_byte(b: u8) -> (r: bool)
    ensures
        r == is_digit(b),
{
    48 <= b && b <= 57
}

/// Ten to the power `n`.
pub open spec fn pow10(n: nat) -> nat
    decreases n,
{
    if n == 0 {
        1
    } else {
        10 * pow10((n - 1) as nat)
    }
}

/// Number of digits at the front of `s`.
pub open spec fn leading_digits(s: Seq<u8>) -> nat
    decreases s.len(),
{
    if s.len() > 0 && is_digit(s[0]) {
        1 + leading_digits(s.drop_first())
    } else {
        0
    }
}

/// What an unsigned decimal column holds: an optional `+`, then one or more
/// digits whose value is at most `max`.
pub open spec fn unsigned_decimal(s: Seq<u8>, max: nat) -> Option<nat> {
    let body = if s.len() > 0 && s[0] == 43 {
        s.drop_first()
    } else {
        s
    };
    if body.len() > 0 && all_digits(body) && digits_value(body) <= max {
        Some(digits_value(body))
    } else {
        None
    }
}

/// Value of the digits after a decimal point, in units of `10^-places`: the
/// first `places` digits count, missing ones are zero, further ones are cut.
pub open spec fn fraction_value(f: Seq<u8>, places: nat) -> nat {
    if f.len() >= places {
        digits_value(f.take(places as int))
    } else {
        digits_value(f) * pow10((places - f.len()) as nat)
    }
}

/// What a signed decimal column holds, in units of `10^-places`: an optional
/// sign, digits, an optional point and more digits, with at least one digit.
/// There is no exponent form.
pub open spec fn fixed_point(s: Seq<u8>, places: nat) -> Option<int> {
    let signed = s.len() > 0 && (s[0] == 45 || s[0] == 43);
    let negative = s.len() > 0 && s[0] == 45;
    let body = if signed {
        s.drop_first()
    } else {
        s
    };
    let whole = body.take(leading_digits(body) as int);
    let rest = body.skip(leading_digits(body) as int);
    let fraction = if rest.len() > 0 && rest[0] == 46 {
        rest.drop_first()
    } else {
        rest
    };
    if all_digits(fraction) && whole.len() + fraction.len() > 0 {
        let magnitude = digits_value(whole) * pow10(places) + fraction_value(fraction, places);
        Some(
            if negative {
                -magnitude
            } else {
                magnitude as int
            },
        )
    } else {
        None
    }
}

/// A run of digits that is all digits has itself as its leading digits.
pub proof fn lemma_leading_digits_all(s: Seq<u8>, n: int)
    requires
        0 <= n <= s.len(),
        all_digits(s.take(n)),
        n < s.len() ==> !is_digit(s[n]),
    ensures
        leading_digits(s) == n,
    decreases n,
{
    if n > 0 {
        assert(s.take(n)[0] == s[0]);
        let t = s.drop_first();
        assert forall|i: int| 0 <= i < n - 1 implies is_digit(#[trigger] t.take(n - 1)[i]) by {
            assert(t.take(n - 1)[i] == s.take(n)[i + 1]);
        }
        if n - 1 < t.len() {
            assert(t[n - 1] == s[n]);
        }
        lemma_leading_digits_all(t, n - 1);
    }
}

/// A power of ten is at least one.
pub proof fn lemma_pow10_positive(n: nat)
    ensures
        pow10(n) >= 1,
    decreases n,
{
    if n > 0 {
        lemma_pow10_positive((n - 1) as nat);
    }
}

/// Powers of ten multiply by adding their exponents.
pub proof fn lemma_pow10_adds(a: nat, b: nat)
    ensures
        pow10(a + b) == pow10(a) * pow10(b),
    decreases a,
{
    if a > 0 {
        lemma_pow10_adds((a - 1) as nat, b);
        let x = pow10((a - 1) as nat) as int;
        let y = pow10(b) as int;
        assert(pow10(a + b) == 10 * pow10(((a - 1) as nat + b) as nat));
        assert(pow10(a) == 10 * x);
        assert(10 * (x * y) == (10 * x) * y) by (nonlinear_arith);
    } else {
        assert(pow10(a) == 1);
        assert(pow10(a + b) == pow10(b));
    }
}

/// The largest power of ten used here.
pub proof fn lemma_pow10_eighteen()
    ensures
        pow10(18) == 1_000_000_000_000_000_000,
{
    reveal_with_fuel(pow10, 19);
}

/// The powers of ten up to the eighteenth fit eight bytes.
pub proof fn lemma_pow10_fits(n: nat)
    requires
        n <= 18,
    ensures
        1 <= pow10(n) <= 1_000_000_000_000_000_000,
{
    lemma_pow10_eighteen();
    lemma_pow10_adds(n, (18 - n) as nat);
    lemma_pow10_positive(n);
    lemma_pow10_positive((18 - n) as nat);
    assert(pow10(n) <= pow10(18)) by (nonlinear_arith)
        requires
            pow10(18) == pow10(n) * pow10((18 - n) as nat),
            pow10((18 - n) as nat) >= 1,
            pow10(n) >= 1,
    ;
}

/// A run of `n` digits is worth less than `10^n`.
pub proof fn lemma_digits_value_bound(s: Seq<u8>)
    requires
        all_digits(s),
    ensures
        digits_value(s) < pow10(s.len()),
    decreases s.len(),
{
    if s.len() > 0 {
        let t = s.drop_last();
        assert forall|i: int| 0 <= i < t.len() implies is_digit(#[trigger] t[i]) by {
            assert(t[i] == s[i]);
        }
        lemma_digits_value_bound(t);
        assert(is_digit(s[s.len() - 1]));
    }
}

/// Reading more digits never lowers the value.
pub proof fn lemma_digits_value_grows(s: Seq<u8>, i: int, j: int)
    requires
        0 <= i <= j <= s.len(),
        all_digits(s.take(j)),
    ensures
        digits_value(s.take(i)) <= digits_value(s.take(j)),
    decreases j - i,
{
    if i < j {
        assert(s.take(j).drop_last() =~= s.take(j - 1));
        assert forall|k: int| 0 <= k < j - 1 implies is_digit(#[trigger] s.take(j - 1)[k]) by {
            assert(s.take(j - 1)[k] == s.take(j)[k]);
        }
        lemma_digits_value_grows(s, i, j - 1);
        assert(is_digit(s.take(j)[j - 1]));
    }
}

/// Ten to the power `places`, for the powers that fit.
pub fn pow10_u64(places: u32) -> (r: u64)
    requires
        places <= 18,
    ensures
        r == pow10(places as nat),
        1 <= r <= 1_000_000_000_000_000_000,
{
    let mut r: u64 = 1;
    let mut i: u32 = 0;
    while i < places
        invariant
            i <= places <= 18,
            r == pow10(i as nat),
        decreases places - i,
    {
        proof {
            lemma_pow10_fits((i + 1) as nat);
        }
        r = r * 10;
        i = i + 1;
    }
    proof {
        lemma_pow10_fits(places as nat);
    }
    r
}

/// Value of the digits `s[from..to]`, or `None` where it does not fit.
pub fn digits_to_u64(s: &[u8], from: usize, to: usize) -> (r: Option<u64>)
    requires
        from <= to <= s@.len(),
        all_digits(s@.subrange(from as int, to as int)),
    ensures
        r == (if digits_value(s@.subrange(from as int, to as int)) <= u64::MAX {
            Some(digits_value(s@.subrange(from as int, to as int)) as u64)
        } else {
            None
        }),
{
    let ghost run = s@.subrange(from as int, to as int);
    let mut acc: u64 = 0;
    let mut i: usize = from;
    assert(run.take(0) =~= Seq::<u8>::empty());
    while i < to
        invariant
            from <= i <= to <= s@.len(),
            run == s@.subrange(from as int, to as int),
            all_digits(run),
            acc == digits_value(run.take(i - from)),
        decreases to - i,
    {
        proof {
            assert(run[i - from] == s@[i as int]);
            assert(is_digit(run[i - from]));
            assert(run.take(i + 1 - from).drop_last() =~= run.take(i - from));
            assert(run.take(i + 1 - from).last() == s@[i as int]);
        }
        let d = (s[i] - 48) as u64;
        if acc > (u64::MAX - d) / 10 {
            proof {
                assert(run.take(run.len() as int) =~= run);
                lemma_digits_value_grows(run, i + 1 - from, run.len() as int);
            }
            return None;
        }
        acc = acc * 10 + d;
        i = i + 1;
    }
    assert(run.take(to - from) =~= run);
    Some(acc)
}

/// Where the run of digits that starts at `from` ends.
pub fn digit_run_end(s: &[u8], from: usize) -> (end: usize)
    requires
        from <= s@.len(),
    ensures
        from <= end <= s@.len(),
        end - from == leading_digits(s@.skip(from as int)),
        all_digits(s@.subrange(from as int, end as int)),
        end < s@.len() ==> !is_digit(s@[end as int]),
{
    let n = s.len();
    let mut end: usize = from;
    while end < n && is_digit_byte(s[end])
        invariant
            from <= end <= n,
            n == s@.len(),
            forall|k: int| from <= k < end ==> is_digit(#[trigger] s@[k]),
        decreases n - end,
    {
        end = end + 1;
    }
    proof {
        let tail = s@.skip(from as int);
        assert forall|k: int| 0 <= k < end - from implies is_digit(
            #[trigger] tail.take(end - from)[k],
        ) by {
            assert(tail.take(end - from)[k] == s@[from + k]);
        }
        if end < n {
            assert(tail[end - from] == s@[end as int]);
        }
        lemma_leading_digits_all(tail, end - from);
        assert forall|k: int| 0 <= k < end - from implies is_digit(
            #[trigger] s@.subrange(from as int, end as int)[k],
        ) by {
            assert(s@.subrange(from as int, end as int)[k] == s@[from + k]);
        }
    }
    end
}

/// Reads an unsigned decimal column.
pub fn parse_unsigned(s: &[u8], max: u64) -> (r: Option<u64>)
    ensures
        r == (match unsigned_decimal(s@, max as nat) {
            Some(v) => Some(v as u64),
            None => None,
        }),
{
    let n = s.len();
    let from: usize = if n > 0 && s[0] == 43 {
        1
    } else {
        0
    };
    let ghost body = s@.subrange(from as int, n as int);
    proof {
        if from == 1 {
            assert(body =~= s@.drop_first());
        } else {
            assert(body =~= s@);
        }
    }
    if from == n {
        return None;
    }
    let end = digit_run_end(s, from);
    if end < n {
        assert(!is_digit(body[end - from]));
        return None;
    }
    match digits_to_u64(s, from, n) {
        Some(v) => if v <= max {
            Some(v)
        } else {
            None
        },
        None => None,
    }
}

/// How the parts of a decimal column make up its value.
proof fn lemma_fixed_point_parts(s: Seq<u8>, places: nat, from: int, dot: int, frac_from: int)
    requires
        from == (if s.len() > 0 && (s[0] == 45 || s[0] == 43) {
            1int
        } else {
            0int
        }),
        from <= dot <= s.len(),
        dot - from == leading_digits(s.skip(from)),
        frac_from == (if dot < s.len() && s[dot] == 46 {
            dot + 1
        } else {
            dot
        }),
    ensures
        fixed_point(s, places) == (if all_digits(s.subrange(frac_from, s.len() as int)) && (dot
            - from) + (s.len() - frac_from) > 0 {
            let magnitude = digits_value(s.subrange(from, dot)) * pow10(places) + fraction_value(
                s.subrange(frac_from, s.len() as int),
                places,
            );
            Some(
                if s.len() > 0 && s[0] == 45 {
                    -magnitude
                } else {
                    magnitude as int
                },
            )
        } else {
            None
        }),
{
    let body = if from == 1 {
        s.drop_first()
    } else {
        s
    };
    assert(body =~= s.skip(from));
    let rest = body.skip(dot - from);
    assert(body.take(dot - from) =~= s.subrange(from, dot));
    if dot < s.len() {
        assert(rest[0] == s[dot]);
    }
    if frac_from == dot + 1 {
        assert(rest.drop_first() =~= s.subrange(frac_from, s.len() as int));
    } else {
        assert(rest =~= s.subrange(frac_from, s.len() as int));
    }
}

/// The digits after the point, in units of `10^-places`.
fn fraction_to_u64(s: &[u8], from: usize, places: u32) -> (r: u64)
    requires
        from <= s@.len(),
        places <= 18,
        all_digits(s@.subrange(from as int, s@.len() as int)),
    ensures
        r == fraction_value(s@.subrange(from as int, s@.len() as int), places as nat),
        r < pow10(places as nat),
{
    let n = s.len();
    let ghost fraction = s@.subrange(from as int, n as int);
    let len = n - from;
    proof {
        lemma_pow10_fits(places as nat);
    }
    if len >= places as usize {
        let to = from + places as usize;
        proof {
            assert(s@.subrange(from as int, to as int) =~= fraction.take(places as int));
            lemma_digits_value_bound(fraction.take(places as int));
        }
        match digits_to_u64(s, from, to) {
            Some(v) => v,
            None => 0,
        }
    } else {
        let pad = pow10_u64(places - len as u32);
        proof {
            lemma_digits_value_bound(fraction);
            lemma_pow10_adds(len as nat, (places - len) as nat);
            lemma_pow10_positive((places - len) as nat);
            let v = digits_value(fraction) as int;
            let a = pow10(len as nat) as int;
            let b = pow10((places - len) as nat) as int;
            assert(v * b < a * b) by (nonlinear_arith)
                requires
                    0 <= v < a,
                    b >= 1,
            ;
            assert(v <= v * b) by (nonlinear_arith)
                requires
                    0 <= v,
                    b >= 1,
            ;
        }
        match digits_to_u64(s, from, n) {
            Some(v) => v * pad,
            None => 0,
        }
    }
}

/// Reads a signed decimal column into units of `10^-places`. The result is
/// `None` for what is no decimal number and for a value of more than
/// `i64::MAX` in magnitude.
pub fn parse_fixed(s: &[u8], places: u32) -> (r: Option<i64>)
    requires
        places <= 18,
    ensures
        r == (match fixed_point(s@, places as nat) {
            Some(v) => if i64::MIN < v <= i64::MAX {
                Some(v as i64)
            } else {
                None
            },
            None => None,
        }),
{
    let n = s.len();
    let negative = n > 0 && s[0] == 45;
    let from: usize = if n > 0 && (s[0] == 45 || s[0] == 43) {
        1
    } else {
        0
    };
    let dot = digit_run_end(s, from);
    let frac_from: usize = if dot < n && s[dot] == 46 {
        dot + 1
    } else {
        dot
    };
    let end = digit_run_end(s, frac_from);
    proof {
        lemma_fixed_point_parts(s@, places as nat, from as int, dot as int, frac_from as int);
        if end < n {
            assert(s@.subrange(frac_from as int, n as int)[end - frac_from] == s@[end as int]);
        }
    }
    if end < n || (dot - from) + (n - frac_from) == 0 {
        return None;
    }
    let scale = pow10_u64(places);
    let frac_value = fraction_to_u64(s, frac_from, places);
    let whole_value = match digits_to_u64(s, from, dot) {
        Some(v) => v,
        None => {
            proof {
                lemma_pow10_positive(places as nat);
                let w = digits_value(s@.subrange(from as int, dot as int)) as int;
                let b = pow10(places as nat) as int;
                assert(w * b >= w) by (nonlinear_arith)
                    requires
                        b >= 1,
                        w >= 0,
                ;
            }
            return None;
        },
    };
    assert(whole_value as u128 * scale as u128 <= 0xffff_ffff_ffff_ffff
        * 1_000_000_000_000_000_000) by (nonlinear_arith)
        requires
            whole_value <= 0xffff_ffff_ffff_ffff,
            scale <= 1_000_000_000_000_000_000,
    ;
    let magnitude: u128 = whole_value as u128 * scale as u128 + frac_value as u128;
    if magnitude > i64::MAX as u128 {
        return None;
    }
    if negative {
        Some(-(magnitude as i64))
    } else {
        Some(magnitude as i64)
    }
}

/// A place in UTF-8 text where a single-byte character stands, or the end of
/// the text, is a place where the text can be cut.
pub proof fn lemma_boundary_at_ascii(bytes: Seq<u8>, i: int)
    requires
        valid_utf8(bytes),
        0 <= i <= bytes.len(),
        i < bytes.len() ==> bytes[i] < 128,
    ensures
        is_char_boundary(bytes, i),
{
    if i < bytes.len() {
        is_char_boundary_iff_not_is_continuation_byte(bytes, i);
    } else {
        is_char_boundary_start_end_of_seq(bytes);
    }
}

/// The place just behind a single-byte character is a place where the text can
/// be cut.
pub proof fn lemma_boundary_after_ascii(bytes: Seq<u8>, i: int)
    requires
        valid_utf8(bytes),
        0 < i <= bytes.len(),
        bytes[i - 1] < 128,
    ensures
        is_char_boundary(bytes, i),
{
    if i < bytes.len() {
        lemma_boundary_at_ascii(bytes, i - 1);
        valid_utf8_split(bytes, i - 1);
        let tail = bytes.subrange(i - 1, bytes.len() as int);
        assert(tail[0] == bytes[i - 1]);
        assert(tail[1] == bytes[i]);
        assert(is_char_boundary(tail, 1)) by {
            reveal_with_fuel(is_char_boundary, 2);
            reveal_with_fuel(valid_utf8, 2);
        }
        is_char_boundary_iff_not_is_continuation_byte(tail, 1);
        is_char_boundary_iff_not_is_continuation_byte(bytes, i);
    } else {
        is_char_boundary_start_end_of_seq(bytes);
    }
}

/// The part of `s` between two byte offsets at which it can be cut.
pub fn slice_str<'a>(s: &'a str, from: usize, to: usize) -> (r: &'a str)
    requires
        from <= to <= s.spec_bytes().len(),
        is_char_boundary(s.spec_bytes(), from as int),
        is_char_boundary(s.spec_bytes(), to as int),
    ensures
        r.spec_bytes() == s.spec_bytes().subrange(from as int, to as int),
{
    let (head, _) = s.split_at(to);
    proof {
        let bytes = s.spec_bytes();
        let hb = head.spec_bytes();
        encode_utf8_valid_utf8(s@);
        encode_utf8_valid_utf8(head@);
        if from < to {
            is_char_boundary_iff_not_is_continuation_byte(bytes, from as int);
            assert(hb[from as int] == bytes[from as int]);
            is_char_boundary_iff_not_is_continuation_byte(hb, from as int);
        } else {
            is_char_boundary_start_end_of_seq(hb);
        }
    }
    let (_, r) = head.split_at(from);
    assert(r.spec_bytes() =~= s.spec_bytes().subrange(from as int, to as int));
    r
}

} // verus!
