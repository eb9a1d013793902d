//! Integer formatting and parsing used for ids and timestamp fields.

use vstd::prelude::*;

use crate::text::push_char;

verus! {

/// The ASCII digit character for `d` (`0 <= d <= 9`).
pub open spec fn spec_digit_char(d: int) -> char {
    (48 + d) as char
}

/// The lower-case hex digit character for `d` (`0 <= d <= 15`).
pub open spec fn spec_hex_digit_char(d: int) -> char {
    if d < 10 {
        (48 + d) as char
    } else {
        (87 + d) as char
    }
}

/// Decimal rendering of a natural number, most significant digit first.
pub open spec fn spec_u64_dec(n: nat) -> Seq<char>
    decreases n,
{
    if n < 10 {
        seq![spec_digit_char(n as int)]
    } else {
        spec_u64_dec(n / 10).push(spec_digit_char((n % 10) as int))
    }
}

/// Hex rendering of `n` in exactly `k` digits, most significant first.
pub open spec fn spec_hex_rec(n: nat, k: nat) -> Seq<char>
    decreases k,
{
    if k == 0 {
        Seq::empty()
    } else {
        spec_hex_rec(n / 16, (k - 1) as nat).push(spec_hex_digit_char((n % 16) as int))
    }
}

/// The 16-digit zero-padded lower-case hex rendering of a `u64`.
pub open spec fn spec_u64_hex16(n: nat) -> Seq<char> {
    spec_hex_rec(n, 16)
}

/// Renders a `u64` in decimal.
pub fn u64_to_dec(n: u64) -> (r: String)
    ensures
        r@ == spec_u64_dec(n as nat),
    decreases n,
{
    if n < 10 {
        let mut s = String::new();
        push_char(&mut s, ((48 + n as u8)) as char);
        proof {
            assert(s@ =~= seq![spec_digit_char(n as int)]);
        }
        s
    } else {
        let mut s = u64_to_dec(n / 10);
        push_char(&mut s, (48 + (n % 10) as u8) as char);
        s
    }
}

pub(crate) fn hex_rec(n: u64, k: usize) -> (r: String)
    ensures
        r@ == spec_hex_rec(n as nat, k as nat),
    decreases k,
{
    if k == 0 {
        String::new()
    } else {
        let mut s = hex_rec(n / 16, k - 1);
        let d = (n % 16) as u8;
        if d < 10 {
            push_char(&mut s, (48 + d) as char);
        } else {
            push_char(&mut s, (87 + d) as char);
        }
        s
    }
}

/// Renders a `u64` as 16 zero-padded lower-case hex digits.
pub fn u64_to_hex16(n: u64) -> (r: String)
    ensures
        r@ == spec_u64_hex16(n as nat),
{
    hex_rec(n, 16)
}

/// True of an ASCII decimal digit.
pub open spec fn spec_is_digit(c: char) -> bool {
    48 <= c as u32 && c as u32 <= 57
}

/// True when `s` is a non-empty run of ASCII digits.
pub open spec fn spec_all_digits(s: Seq<char>) -> bool {
    s.len() > 0 && forall|i: int| 0 <= i < s.len() ==> spec_is_digit(#[trigger] s[i])
}

/// The value of a digit run, most significant digit first.
pub open spec fn spec_dec_val(s: Seq<char>) -> int
    decreases s.len(),
{
    if s.len() == 0 {
        0
    } else {
        spec_dec_val(s.drop_last()) * 10 + (s[s.len() - 1] as u32 - 48)
    }
}

proof fn lemma_dec_val_nonneg(s: Seq<char>)
    requires
        forall|i: int| 0 <= i < s.len() ==> spec_is_digit(#[trigger] s[i]),
    ensures
        spec_dec_val(s) >= 0,
    decreases s.len(),
{
    if s.len() > 0 {
        lemma_dec_val_nonneg(s.drop_last());
        assert(spec_dec_val(s.drop_last()) * 10 >= 0) by (nonlinear_arith)
            requires
                spec_dec_val(s.drop_last()) >= 0,
        ;
    }
}

proof fn lemma_dec_val_prefix_le(s: Seq<char>, j: int)
    requires
        0 <= j <= s.len(),
        forall|i: int| 0 <= i < s.len() ==> spec_is_digit(#[trigger] s[i]),
    ensures
        spec_dec_val(s.subrange(0, j)) <= spec_dec_val(s),
    decreases s.len() - j,
{
    if j == s.len() {
        assert(s.subrange(0, j) =~= s);
    } else {
        lemma_dec_val_prefix_le(s, j + 1);
        let p = s.subrange(0, j);
        let q = s.subrange(0, j + 1);
        assert(q.drop_last() =~= p);
        lemma_dec_val_nonneg(p);
        assert(spec_dec_val(p) * 10 >= spec_dec_val(p)) by (nonlinear_arith)
            requires
                spec_dec_val(p) >= 0,
        ;
    }
}

/// The parsed `i64` of a decimal string with optional sign: `None` on any
/// other character, on an empty digit run, and on values outside `i64`.
pub open spec fn spec_parse_i64(s: Seq<char>) -> Option<i64> {
    let negative = s.len() > 0 && s[0] == '-';
    let digits = if s.len() > 0 && (s[0] == '-' || s[0] == '+') {
        s.drop_first()
    } else {
        s
    };
    if spec_all_digits(digits) {
        let v = if negative {
            -spec_dec_val(digits)
        } else {
            spec_dec_val(digits)
        };
        if i64::MIN <= v <= i64::MAX {
            Some(v as i64)
        } else {
            None
        }
    } else {
        None
    }
}

/// Parses an optionally signed decimal integer, as `str::parse::<i64>` does.
pub fn parse_i64(s: &str) -> (r: Option<i64>)
    ensures
        r == spec_parse_i64(s@),
{
    let n = s.unicode_len();
    let mut start: usize = 0;
    let mut negative = false;
    if n > 0 {
        let c0 = s.get_char(0);
        if c0 == '-' {
            negative = true;
            start = 1;
        } else if c0 == '+' {
            start = 1;
        }
    }
    let ghost digits = if s@.len() > 0 && (s@[0] == '-' || s@[0] == '+') {
        s@.drop_first()
    } else {
        s@
    };
    proof {
        assert(digits =~= s@.subrange(start as int, n as int));
    }
    if start == n {
        proof {
            assert(!spec_all_digits(digits));
        }
        return None;
    }
    let mut acc: i128 = 0;
    let mut i: usize = start;
    while i < n
        invariant
            n == s@.len(),
            start <= i <= n,
            digits == s@.subrange(start as int, n as int),
            digits == (if s@.len() > 0 && (s@[0] == '-' || s@[0] == '+') {
                s@.drop_first()
            } else {
                s@
            }),
            negative == (s@.len() > 0 && s@[0] == '-'),
            forall|j: int| start <= j < i ==> spec_is_digit(#[trigger] s@[j]),
            acc == spec_dec_val(s@.subrange(start as int, i as int)),
            0 <= acc <= 0x8000_0000_0000_0000i128,
        decreases n - i,
    {
        let c = s.get_char(i);
        let u = c as u32;
        if !(48 <= u && u <= 57) {
            proof {
                assert(!spec_is_digit(digits[i - start]));
                assert(!spec_all_digits(digits));
            }
            return None;
        }
        acc = acc * 10 + (u - 48) as i128;
        proof {
            assert(s@.subrange(start as int, i + 1).drop_last() =~= s@.subrange(
                start as int,
                i as int,
            ));
        }
        i = i + 1;
        if acc > 0x8000_0000_0000_0000i128 {
            proof {
                let pre = s@.subrange(start as int, i as int);
                assert(pre =~= digits.subrange(0, i - start));
                if spec_all_digits(digits) {
                    lemma_dec_val_prefix_le(digits, i - start);
                    assert(spec_dec_val(digits.subrange(0, i - start)) == acc);
                    assert(spec_dec_val(digits) > 0x8000_0000_0000_0000);
                }
            }
            return None;
        }
    }
    proof {
        assert(s@.subrange(start as int, n as int) =~= digits);
        assert(spec_all_digits(digits));
    }
    if negative {
        if acc == 0x8000_0000_0000_0000i128 {
            Some(i64::MIN)
        } else {
            Some(-(acc as i64))
        }
    } else {
        if acc == 0x8000_0000_0000_0000i128 {
            None
        } else {
            Some(acc as i64)
        }
    }
}

/// Powers of ten up to one million, for fraction scaling.
pub open spec fn spec_pow10(k: nat) -> int
    decreases k,
{
    if k == 0 {
        1
    } else {
        10 * spec_pow10((k - 1) as nat)
    }
}

/// Where the first decimal point cuts the digit text; the whole length
/// when it holds none.
pub open spec fn spec_dot_index(s: Seq<char>) -> int
    decreases s.len(),
{
    if s.len() == 0 {
        0
    } else if s[0] == '.' {
        0
    } else {
        1 + spec_dot_index(s.drop_first())
    }
}

/// True when every character is an ASCII digit (an empty run counts).
pub open spec fn spec_digits_only(s: Seq<char>) -> bool {
    forall|i: int| 0 <= i < s.len() ==> spec_is_digit(#[trigger] s[i])
}

/// The value in millionths of a plain decimal number `[+-]?D*(.D*)?` with
/// at least one digit: the integer part scaled by one million plus the
/// first six fraction digits, further digits ignored. `None` on any other
/// shape and on integer parts of a trillion or more.
pub open spec fn spec_parse_micro(s: Seq<char>) -> Option<i64> {
    let negative = s.len() > 0 && s[0] == '-';
    let body = if s.len() > 0 && (s[0] == '-' || s[0] == '+') {
        s.drop_first()
    } else {
        s
    };
    let d = spec_dot_index(body);
    let int_part = body.subrange(0, d);
    let frac_part = if d < body.len() {
        body.subrange(d + 1, body.len() as int)
    } else {
        Seq::empty()
    };
    if spec_digits_only(int_part) && spec_digits_only(frac_part) && int_part.len()
        + frac_part.len() > 0 {
        let frac6 = if frac_part.len() > 6 {
            frac_part.subrange(0, 6)
        } else {
            frac_part
        };
        let iv = spec_dec_val(int_part);
        if iv >= 1_000_000_000_000 {
            None
        } else {
            let magnitude = iv * 1_000_000 + spec_dec_val(frac6) * spec_pow10(
                (6 - frac6.len()) as nat,
            );
            if negative {
                Some((-magnitude) as i64)
            } else {
                Some(magnitude as i64)
            }
        }
    } else {
        None
    }
}

proof fn lemma_dot_index_at(s: Seq<char>, i: int)
    requires
        0 <= i <= s.len(),
        forall|j: int| 0 <= j < i ==> s[j] != '.',
        i < s.len() ==> s[i] == '.',
    ensures
        spec_dot_index(s) == i,
    decreases i,
{
    if i == 0 {
        if s.len() > 0 && s[0] != '.' {
            assert(s[0] == '.');
        }
    } else {
        assert(s[0] != '.');
        lemma_dot_index_at(s.drop_first(), i - 1);
    }
}

proof fn lemma_dec_val_bound(s: Seq<char>)
    requires
        forall|i: int| 0 <= i < s.len() ==> spec_is_digit(#[trigger] s[i]),
    ensures
        spec_dec_val(s) < spec_pow10(s.len()),
    decreases s.len(),
{
    if s.len() == 0 {
    } else {
        lemma_dec_val_bound(s.drop_last());
        lemma_pow10_pos((s.len() - 1) as nat);
        let p = spec_pow10((s.len() - 1) as nat);
        assert(spec_dec_val(s.drop_last()) * 10 + 9 < 10 * p) by (nonlinear_arith)
            requires
                spec_dec_val(s.drop_last()) < p,
                p >= 1,
        ;
    }
}

proof fn lemma_pow10_pos(k: nat)
    ensures
        spec_pow10(k) >= 1,
    decreases k,
{
    if k > 0 {
        lemma_pow10_pos((k - 1) as nat);
    }
}

proof fn lemma_pow10_le6(k: nat)
    requires
        k <= 6,
    ensures
        1 <= spec_pow10(k) <= 1_000_000,
{
    reveal_with_fuel(spec_pow10, 8);
    if k == 0 {
        assert(spec_pow10(0) == 1);
    } else if k == 1 {
        assert(spec_pow10(1) == 10);
    } else if k == 2 {
        assert(spec_pow10(2) == 100);
    } else if k == 3 {
        assert(spec_pow10(3) == 1_000);
    } else if k == 4 {
        assert(spec_pow10(4) == 10_000);
    } else if k == 5 {
        assert(spec_pow10(5) == 100_000);
    } else {
        assert(spec_pow10(6) == 1_000_000);
    }
}

fn scale_for(missing: usize) -> (r: i64)
    requires
        missing <= 6,
    ensures
        r == spec_pow10(missing as nat),
        1 <= r <= 1_000_000,
{
    proof {
        reveal_with_fuel(spec_pow10, 8);
    }
    if missing == 0 {
        1
    } else if missing == 1 {
        10
    } else if missing == 2 {
        100
    } else if missing == 3 {
        1_000
    } else if missing == 4 {
        10_000
    } else if missing == 5 {
        100_000
    } else {
        1_000_000
    }
}

/// Parses a plain decimal number into millionths, truncating the fraction
/// after six digits.
pub fn parse_micro(s: &str) -> (r: Option<i64>)
    ensures
        r == spec_parse_micro(s@),
{
    let n = s.unicode_len();
    let mut start: usize = 0;
    let mut negative = false;
    if n > 0 {
        let c0 = s.get_char(0);
        if c0 == '-' {
            negative = true;
            start = 1;
        } else if c0 == '+' {
            start = 1;
        }
    }
    let ghost body = if s@.len() > 0 && (s@[0] == '-' || s@[0] == '+') {
        s@.drop_first()
    } else {
        s@
    };
    proof {
        assert(body =~= s@.subrange(start as int, n as int));
    }
    let mut dot: usize = start;
    while dot < n && s.get_char(dot) != '.'
        invariant
            n == s@.len(),
            start <= dot <= n,
            forall|j: int| start <= j < dot ==> s@[j] != '.',
        decreases n - dot,
    {
        dot = dot + 1;
    }
    proof {
        assert forall|j: int| 0 <= j < dot - start implies body[j] != '.' by {
            assert(body[j] == s@[j + start]);
        }
        if dot < n {
            assert(body[dot - start] == s@[dot as int]);
        }
        lemma_dot_index_at(body, dot - start);
    }
    let ghost int_part = body.subrange(0, dot - start);
    let ghost frac_part = if dot - start < body.len() {
        body.subrange(dot - start + 1, body.len() as int)
    } else {
        Seq::<char>::empty()
    };
    let mut iv: i64 = 0;
    let mut i: usize = start;
    while i < dot
        invariant
            n == s@.len(),
            start <= i <= dot <= n,
            body == (if s@.len() > 0 && (s@[0] == '-' || s@[0] == '+') {
                s@.drop_first()
            } else {
                s@
            }),
            negative == (s@.len() > 0 && s@[0] == '-'),
            body == s@.subrange(start as int, n as int),
            spec_dot_index(body) == dot - start,
            int_part == body.subrange(0, dot - start),
            frac_part == (if dot - start < body.len() {
                body.subrange(dot - start + 1, body.len() as int)
            } else {
                Seq::<char>::empty()
            }),
            forall|j: int| start <= j < i ==> spec_is_digit(#[trigger] s@[j]),
            iv == spec_dec_val(s@.subrange(start as int, i as int)),
            0 <= iv < 1_000_000_000_000i64,
        decreases dot - i,
    {
        let c = s.get_char(i);
        let u = c as u32;
        if !(48 <= u && u <= 57) {
            proof {
                assert(int_part[i - start] == s@[i as int]);
                assert(!spec_digits_only(int_part));
            }
            return None;
        }
        iv = iv * 10 + (u - 48) as i64;
        proof {
            assert(s@.subrange(start as int, i + 1).drop_last() =~= s@.subrange(
                start as int,
                i as int,
            ));
        }
        i = i + 1;
        if iv >= 1_000_000_000_000i64 {
            proof {
                let pre = s@.subrange(start as int, i as int);
                assert(pre =~= int_part.subrange(0, i - start));
                if spec_digits_only(int_part) {
                    lemma_dec_val_prefix_le(int_part, i - start);
                    assert(spec_dec_val(int_part) >= 1_000_000_000_000);
                }
            }
            return None;
        }
    }
    proof {
        assert(s@.subrange(start as int, dot as int) =~= int_part);
        assert(spec_digits_only(int_part));
    }
    let fstart: usize = if dot < n {
        dot + 1
    } else {
        n
    };
    proof {
        assert(frac_part =~= s@.subrange(fstart as int, n as int));
    }
    let mut fv: i64 = 0;
    let mut fdigits: usize = 0;
    let mut k: usize = fstart;
    while k < n
        invariant
            n == s@.len(),
            start <= dot <= n,
            fstart as int == (if dot < n {
                dot + 1
            } else {
                n as int
            }),
            fstart <= k <= n,
            body == (if s@.len() > 0 && (s@[0] == '-' || s@[0] == '+') {
                s@.drop_first()
            } else {
                s@
            }),
            negative == (s@.len() > 0 && s@[0] == '-'),
            body == s@.subrange(start as int, n as int),
            spec_dot_index(body) == dot - start,
            int_part == body.subrange(0, dot - start),
            spec_digits_only(int_part),
            iv == spec_dec_val(int_part),
            0 <= iv < 1_000_000_000_000i64,
            frac_part == s@.subrange(fstart as int, n as int),
            frac_part == (if dot - start < body.len() {
                body.subrange(dot - start + 1, body.len() as int)
            } else {
                Seq::<char>::empty()
            }),
            forall|j: int| fstart <= j < k ==> spec_is_digit(#[trigger] s@[j]),
            fdigits == (if k - fstart > 6 {
                6int
            } else {
                k - fstart
            }),
            fv == spec_dec_val(frac_part.subrange(0, fdigits as int)),
            fdigits <= 6,
            0 <= fv,
            fv < spec_pow10(fdigits as nat),
        decreases n - k,
    {
        let c = s.get_char(k);
        let u = c as u32;
        if !(48 <= u && u <= 57) {
            proof {
                assert(frac_part[k - fstart] == s@[k as int]);
                assert(!spec_digits_only(frac_part));
            }
            return None;
        }
        if fdigits < 6 {
            let ghost p = spec_pow10(fdigits as nat);
            proof {
                lemma_pow10_le6(fdigits as nat);
            }
            fv = fv * 10 + (u - 48) as i64;
            fdigits = fdigits + 1;
            proof {
                reveal_with_fuel(spec_pow10, 8);
                assert(spec_pow10(fdigits as nat) == 10 * p);
                let fnew = frac_part.subrange(0, fdigits as int);
                assert(fnew.drop_last() =~= frac_part.subrange(0, fdigits - 1));
                assert(fnew.last() == frac_part[fdigits - 1]);
                assert(frac_part[fdigits - 1] == s@[k as int]);
            }
        }
        k = k + 1;
    }
    proof {
        assert(s@.subrange(fstart as int, n as int) =~= frac_part);
        assert(spec_digits_only(frac_part));
    }
    if dot == start && fstart >= n {
        proof {
            assert(int_part.len() + frac_part.len() == 0);
        }
        return None;
    }
    let missing = 6 - fdigits;
    let scale = scale_for(missing);
    proof {
        lemma_pow10_le6(fdigits as nat);
        assert(fv * scale < 1_000_000_000_000 && fv * scale >= 0) by (nonlinear_arith)
            requires
                0 <= fv < 1_000_000,
                1 <= scale <= 1_000_000,
        ;
        reveal_with_fuel(spec_pow10, 8);
        let frac6 = if frac_part.len() > 6 {
            frac_part.subrange(0, 6)
        } else {
            frac_part
        };
        assert(frac6 =~= frac_part.subrange(0, fdigits as int));
    }
    let magnitude = iv * 1_000_000 + fv * scale;
    if negative {
        Some(-magnitude)
    } else {
        Some(magnitude)
    }
}

} // verus!
