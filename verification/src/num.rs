//! Numeric tokens of the OBJ format: signed decimal integers for face
//! indices, and the decimal floating-point literal grammar (sign, digits,
//! optional dot and exponent, or the special words inf / infinity / nan)
//! for attribute components. Attribute components are carried through the
//! loader as their literal bytes; only their grammar is checked here.
use vstd::prelude::*;

verus! {

/// An ASCII decimal digit.
pub open spec fn is_digit(b: u8) -> bool {
    48 <= b && b <= 57
}

/// Every byte of `s` is a decimal digit.
pub open spec fn all_digits(s: Seq<u8>) -> bool {
    forall|i: int| 0 <= i < s.len() ==> is_digit(#[trigger] s[i])
}

/// The value of a digit string read in base ten.
pub open spec fn digits_val(s: Seq<u8>) -> int
    decreases s.len(),
{
    if s.len() == 0 {
        0
    } else {
        digits_val(s.drop_last()) * 10 + (s.last() - 48)
    }
}

/// The token with a leading `+` or `-` removed.
pub open spec fn sign_body(s: Seq<u8>) -> Seq<u8> {
    if s.len() > 0 && (s[0] == 43 || s[0] == 45) {
        s.drop_first()
    } else {
        s
    }
}

/// The token carries a leading minus sign.
pub open spec fn is_negative(s: Seq<u8>) -> bool {
    s.len() > 0 && s[0] == 45
}

/// The signed value a decimal integer token denotes.
pub open spec fn int_val(s: Seq<u8>) -> int {
    if is_negative(s) {
        -digits_val(sign_body(s))
    } else {
        digits_val(sign_body(s))
    }
}

/// `s` is a decimal integer token that fits an `i32`: an optional sign,
/// one or more digits, and a value within the type's range.
pub open spec fn is_int_token(s: Seq<u8>) -> bool {
    &&& sign_body(s).len() > 0
    &&& all_digits(sign_body(s))
    &&& -0x8000_0000 <= int_val(s) <= 0x7fff_ffff
}

/// A digit string denotes a non-negative value.
pub proof fn lemma_digits_val_nonneg(s: Seq<u8>)
    requires
        all_digits(s),
    ensures
        digits_val(s) >= 0,
    decreases s.len(),
{
    if s.len() > 0 {
        assert(all_digits(s.drop_last())) by {
            assert(forall|i: int|
                0 <= i < s.len() - 1 ==> s.drop_last()[i] == #[trigger] s[i]);
        }
        lemma_digits_val_nonneg(s.drop_last());
    }
}

/// Extending a digit string can only grow its value.
pub proof fn lemma_digits_val_mono(s: Seq<u8>, k: int)
    requires
        all_digits(s),
        0 <= k <= s.len(),
    ensures
        digits_val(s.take(k)) <= digits_val(s),
    decreases s.len(),
{
    if k < s.len() {
        assert(all_digits(s.drop_last())) by {
            assert(forall|i: int|
                0 <= i < s.len() - 1 ==> s.drop_last()[i] == #[trigger] s[i]);
        }
        assert(s.drop_last().take(k) =~= s.take(k));
        lemma_digits_val_mono(s.drop_last(), k);
        lemma_digits_val_nonneg(s.drop_last());
        assert(digits_val(s) == digits_val(s.drop_last()) * 10 + (s.last() - 48));
        assert(digits_val(s.drop_last()) * 10 >= digits_val(s.drop_last())) by (nonlinear_arith)
            requires digits_val(s.drop_last()) >= 0;
    } else {
        assert(s.take(k) =~= s);
    }
}

/// Parses a signed decimal integer token, as a face-index slot holds it.
/// Returns the value exactly when the token matches the integer grammar
/// and fits an `i32`.
pub fn parse_i32(s: &[u8]) -> (r: Option<i32>)
    ensures
        r is Some <==> is_int_token(s@),
        r is Some ==> r->Some_0 as int == int_val(s@),
{
    let n = s.len();
    let mut i: usize = 0;
    let mut neg = false;
    if n > 0 && (s[0] == 43 || s[0] == 45) {
        neg = s[0] == 45;
        i = 1;
    }
    let start = i;
    let ghost body = sign_body(s@);
    proof {
        assert(body =~= s@.skip(start as int));
        assert(neg == is_negative(s@));
    }
    if i == n {
        assert(!is_int_token(s@));
        return None;
    }
    let mut acc: u64 = 0;
    while i < n
        invariant
            start <= i <= n,
            n == s@.len(),
            start <= 1,
            body == s@.skip(start as int),
            body == sign_body(s@),
            neg == is_negative(s@),
            all_digits(body.take(i - start)),
            acc as int == digits_val(body.take(i - start)),
            acc <= 0x8000_0000,
        decreases n - i,
    {
        let b = s[i];
        let ghost k = i - start;
        proof {
            assert(body[k as int] == s@[i as int]);
        }
        if !(48 <= b && b <= 57) {
            proof {
                assert(!all_digits(body));
            }
            return None;
        }
        let ghost prev = body.take(k as int);
        acc = acc * 10 + ((b - 48) as u64);
        proof {
            assert(body.take(k + 1).drop_last() =~= prev);
            assert(body.take(k + 1).last() == body[k as int]);
            assert(acc as int == digits_val(body.take(k + 1)));
            assert(all_digits(body.take(k + 1))) by {
                assert(forall|j: int| 0 <= j < k ==> body.take(k + 1)[j] == #[trigger] prev[j]);
            }
        }
        if acc > 0x8000_0000 {
            proof {
                if all_digits(body) {
                    lemma_digits_val_mono(body, k + 1);
                    assert(digits_val(body) > 0x8000_0000);
                    assert(!is_int_token(s@));
                } else {
                    assert(!is_int_token(s@));
                }
            }
            return None;
        }
        i = i + 1;
    }
    proof {
        assert(body.take(i - start) =~= body);
    }
    if neg {
        let v: i64 = -(acc as i64);
        assert(is_int_token(s@));
        Some(v as i32)
    } else {
        if acc <= 0x7fff_ffff {
            assert(is_int_token(s@));
            Some(acc as i32)
        } else {
            assert(int_val(s@) == acc as int);
            assert(!is_int_token(s@));
            None
        }
    }
}

/// ASCII lower-casing of one byte.
pub open spec fn to_lower(b: u8) -> u8 {
    if 65 <= b && b <= 90 {
        (b + 32) as u8
    } else {
        b
    }
}

/// The body spells `inf`, `infinity` or `nan`, in any case.
pub open spec fn is_special_body(b: Seq<u8>) -> bool {
    ||| (b.len() == 3 && to_lower(b[0]) == 105 && to_lower(b[1]) == 110 && to_lower(b[2]) == 102)
    ||| (b.len() == 3 && to_lower(b[0]) == 110 && to_lower(b[1]) == 97 && to_lower(b[2]) == 110)
    ||| (b.len() == 8 && to_lower(b[0]) == 105 && to_lower(b[1]) == 110 && to_lower(b[2]) == 102
        && to_lower(b[3]) == 105 && to_lower(b[4]) == 110 && to_lower(b[5]) == 105 && to_lower(
        b[6],
    ) == 116 && to_lower(b[7]) == 121)
}

/// The index of the first byte of `s` equal to `a` or `b`, or `s.len()`
/// when there is none.
pub open spec fn first_at(s: Seq<u8>, a: u8, b: u8) -> int
    decreases s.len(),
{
    if s.len() == 0 {
        0
    } else if s[0] == a || s[0] == b {
        0
    } else {
        1 + first_at(s.drop_first(), a, b)
    }
}

/// `first_at` is pinned down by what stands before and at the found index.
pub proof fn lemma_first_at_char(s: Seq<u8>, a: u8, b: u8, k: int)
    requires
        0 <= k <= s.len(),
        forall|j: int| 0 <= j < k ==> !(#[trigger] s[j] == a || s[j] == b),
        k < s.len() ==> (s[k] == a || s[k] == b),
    ensures
        first_at(s, a, b) == k,
    decreases s.len(),
{
    if s.len() == 0 {
    } else if s[0] == a || s[0] == b {
        assert(k == 0);
    } else {
        assert(k >= 1);
        let t = s.drop_first();
        assert(forall|j: int| 0 <= j < k - 1 ==> #[trigger] t[j] == s[j + 1]);
        lemma_first_at_char(t, a, b, k - 1);
    }
}

/// The mantissa part of a decimal literal: digits with at most one dot,
/// and at least one digit on one side of it.
pub open spec fn is_mantissa(m: Seq<u8>) -> bool {
    let d = first_at(m, 46, 46);
    if d < m.len() {
        all_digits(m.take(d)) && all_digits(m.skip(d + 1)) && m.len() > 1
    } else {
        m.len() > 0 && all_digits(m)
    }
}

/// What follows the exponent marker: an optional sign and then digits.
pub open spec fn is_exp_tail(t: Seq<u8>) -> bool {
    sign_body(t).len() > 0 && all_digits(sign_body(t))
}

/// The body after the sign is a decimal number, with an optional
/// exponent after the first `e` or `E`.
pub open spec fn is_number_body(s: Seq<u8>) -> bool {
    let e = first_at(s, 101, 69);
    if e < s.len() {
        is_mantissa(s.take(e)) && is_exp_tail(s.skip(e + 1))
    } else {
        is_mantissa(s)
    }
}

/// `s` matches the floating-point literal grammar: an optional sign and
/// then a decimal number with optional exponent, or one of the special
/// words `inf`, `infinity`, `nan` in any case.
pub open spec fn is_float_token(s: Seq<u8>) -> bool {
    is_special_body(sign_body(s)) || is_number_body(sign_body(s))
}

/// Lower-cases one ASCII byte.
fn lower(b: u8) -> (r: u8)
    ensures
        r == to_lower(b),
{
    if 65 <= b && b <= 90 {
        b + 32
    } else {
        b
    }
}

/// Every byte of `s` in `[lo, hi)` is a digit?
fn scan_digits(s: &[u8], lo: usize, hi: usize) -> (r: bool)
    requires
        lo <= hi <= s@.len(),
    ensures
        r == all_digits(s@.subrange(lo as int, hi as int)),
{
    let ghost part = s@.subrange(lo as int, hi as int);
    let mut i = lo;
    while i < hi
        invariant
            lo <= i <= hi <= s@.len(),
            part == s@.subrange(lo as int, hi as int),
            forall|j: int| 0 <= j < i - lo ==> is_digit(#[trigger] part[j]),
        decreases hi - i,
    {
        let b = s[i];
        proof {
            assert(part[i - lo] == s@[i as int]);
        }
        if !(48 <= b && b <= 57) {
            assert(!is_digit(part[i - lo]));
            return false;
        }
        i = i + 1;
    }
    true
}

/// The first index in `[lo, hi)` whose byte is `a` or `b`, or `hi`.
fn find_at(s: &[u8], lo: usize, hi: usize, a: u8, b: u8) -> (k: usize)
    requires
        lo <= hi <= s@.len(),
    ensures
        lo <= k <= hi,
        k - lo == first_at(s@.subrange(lo as int, hi as int), a, b),
        k < hi ==> (s@[k as int] == a || s@[k as int] == b),
        forall|j: int| lo <= j < k ==> !(#[trigger] s@[j] == a || s@[j] == b),
{
    let ghost part = s@.subrange(lo as int, hi as int);
    let mut i = lo;
    while i < hi
        invariant
            lo <= i <= hi <= s@.len(),
            part == s@.subrange(lo as int, hi as int),
            forall|j: int| lo <= j < i ==> !(#[trigger] s@[j] == a || s@[j] == b),
        decreases hi - i,
    {
        let c = s[i];
        if c == a || c == b {
            proof {
                assert(forall|j: int| 0 <= j < i - lo ==> part[j] == #[trigger] s@[j + lo]);
                assert(part[i - lo] == s@[i as int]);
                lemma_first_at_char(part, a, b, i - lo);
            }
            return i;
        }
        i = i + 1;
    }
    proof {
        assert(forall|j: int| 0 <= j < hi - lo ==> part[j] == #[trigger] s@[j + lo]);
        lemma_first_at_char(part, a, b, hi - lo);
    }
    hi
}

/// The exponent tail check over `[lo, hi)` of `s`.
fn check_exp_tail(s: &[u8], lo: usize, hi: usize) -> (r: bool)
    requires
        lo <= hi <= s@.len(),
    ensures
        r == is_exp_tail(s@.subrange(lo as int, hi as int)),
{
    let ghost part = s@.subrange(lo as int, hi as int);
    let start: usize = if lo < hi && (s[lo] == 43 || s[lo] == 45) {
        lo + 1
    } else {
        lo
    };
    proof {
        if part.len() > 0 {
            assert(part[0] == s@[lo as int]);
        }
        assert(sign_body(part) =~= s@.subrange(start as int, hi as int));
    }
    if start == hi {
        return false;
    }
    scan_digits(s, start, hi)
}

/// The mantissa check over `[lo, hi)` of `s`.
fn check_mantissa(s: &[u8], lo: usize, hi: usize) -> (r: bool)
    requires
        lo <= hi <= s@.len(),
    ensures
        r == is_mantissa(s@.subrange(lo as int, hi as int)),
{
    let ghost part = s@.subrange(lo as int, hi as int);
    let d = find_at(s, lo, hi, 46, 46);
    if d < hi {
        proof {
            assert(part.take(d - lo) =~= s@.subrange(lo as int, d as int));
            assert(part.skip(d - lo + 1) =~= s@.subrange(d + 1, hi as int));
        }
        let left = scan_digits(s, lo, d);
        let right = scan_digits(s, d + 1, hi);
        left && right && hi - lo > 1
    } else {
        proof {
            assert(part =~= s@.subrange(lo as int, hi as int));
        }
        hi > lo && scan_digits(s, lo, hi)
    }
}

/// Does `s` match the floating-point literal grammar? This is the grammar
/// the attribute directives demand of each of their tokens.
pub fn is_float_bytes(s: &[u8]) -> (r: bool)
    ensures
        r == is_float_token(s@),
{
    let n = s.len();
    let start: usize = if n > 0 && (s[0] == 43 || s[0] == 45) {
        1
    } else {
        0
    };
    let ghost body = sign_body(s@);
    proof {
        assert(body =~= s@.subrange(start as int, n as int));
    }
    let m = n - start;
    let special: bool = if m == 3 {
        let c0 = lower(s[start]);
        let c1 = lower(s[start + 1]);
        let c2 = lower(s[start + 2]);
        (c0 == 105 && c1 == 110 && c2 == 102) || (c0 == 110 && c1 == 97 && c2 == 110)
    } else if m == 8 {
        lower(s[start]) == 105 && lower(s[start + 1]) == 110 && lower(s[start + 2]) == 102
            && lower(s[start + 3]) == 105 && lower(s[start + 4]) == 110 && lower(s[start + 5])
            == 105 && lower(s[start + 6]) == 116 && lower(s[start + 7]) == 121
    } else {
        false
    };
    proof {
        assert(forall|j: int| 0 <= j < m ==> body[j] == #[trigger] s@[j + start]);
        assert(special == is_special_body(body));
    }
    if special {
        return true;
    }
    let e = find_at(s, start, n, 101, 69);
    proof {
        assert(forall|j: int| 0 <= j < m ==> body[j] == #[trigger] s@[j + start]);
        lemma_first_at_char(body, 101, 69, e - start);
    }
    if e < n {
        proof {
            assert(body.take(e - start) =~= s@.subrange(start as int, e as int));
            assert(body.skip(e - start + 1) =~= s@.subrange(e + 1, n as int));
        }
        let mant = check_mantissa(s, start, e);
        let tail = check_exp_tail(s, e + 1, n);
        mant && tail
    } else {
        proof {
            assert(body =~= s@.subrange(start as int, n as int));
        }
        check_mantissa(s, start, n)
    }
}

} // verus!
