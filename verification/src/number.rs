//! Numerals in ASCII: unsigned decimal numbers, which are read, and the
//! texts of floating-point numbers, which are told from other texts. Also
//! the splitting of a text at a byte.
use vstd::prelude::*;
use vstd::slice::slice_subrange;

verus! {

pub const PLUS: u8 = 0x2b;

pub const MINUS: u8 = 0x2d;

pub const DOT: u8 = 0x2e;

pub const ZERO: u8 = 0x30;

/// Whether `b` is an ASCII digit.
pub open spec fn is_digit(b: u8) -> bool {
    0x30 <= b <= 0x39
}

/// Whether `s` is made of ASCII digits alone.
pub open spec fn all_digits(s: Seq<u8>) -> bool {
    forall|i: int| 0 <= i < s.len() ==> is_digit(#[trigger] s[i])
}

/// The number that the digits of `s` denote in base ten; zero for no digits.
pub open spec fn digits_value(s: Seq<u8>) -> nat
    decreases s.len(),
{
    if s.len() == 0 {
        0
    } else {
        digits_value(s.drop_last()) * 10 + (s.last() - 0x30) as nat
    }
}

/// The number that `s` denotes as an unsigned numeral: a `+` or nothing,
/// then one digit or more. `None` for any other text.
pub open spec fn unsigned_of(s: Seq<u8>) -> Option<nat> {
    let body = if s.len() > 0 && s[0] == PLUS {
        s.skip(1)
    } else {
        s
    };
    if body.len() > 0 && all_digits(body) {
        Some(digits_value(body))
    } else {
        None
    }
}

/// The number that `s` denotes as an unsigned numeral, where it is at most
/// `max`.
pub open spec fn bounded_of(s: Seq<u8>, max: nat) -> Option<nat> {
    match unsigned_of(s) {
        Some(v) => if v <= max {
            Some(v)
        } else {
            None
        },
        None => None,
    }
}

/// `i` is where `b` first occurs in `s`, or the length of `s` if it does
/// not occur.
pub open spec fn is_first_index(s: Seq<u8>, b: u8, i: int) -> bool {
    &&& 0 <= i <= s.len()
    &&& i < s.len() ==> s[i] == b
    &&& forall|j: int| 0 <= j < i ==> #[trigger] s[j] != b
}

/// Where `b` first occurs in `s`, or the length of `s` if it does not.
pub open spec fn index_of(s: Seq<u8>, b: u8) -> int {
    choose|i: int| is_first_index(s, b, i)
}

/// The place that `is_first_index` describes is the one `index_of` names.
pub proof fn lemma_index_of(s: Seq<u8>, b: u8, i: int)
    requires
        is_first_index(s, b, i),
    ensures
        index_of(s, b) == i,
{
    let c = index_of(s, b);
    assert(is_first_index(s, b, c));
    if c < i {
        assert(s[c] != b);
    } else if i < c {
        assert(s[i] != b);
    }
}

/// The digits of a prefix denote no more than the digits of the whole.
pub proof fn lemma_prefix_value(s: Seq<u8>, n: int)
    requires
        0 <= n <= s.len(),
    ensures
        digits_value(s.take(n)) <= digits_value(s),
    decreases s.len() - n,
{
    if n < s.len() {
        lemma_prefix_value(s, n + 1);
        let longer = s.take(n + 1);
        assert(longer.drop_last() =~= s.take(n));
    } else {
        assert(s.take(n) =~= s);
    }
}

/// Where `b` first occurs in `s` at or after `from`, or the length of `s`.
pub fn find_byte(s: &[u8], from: usize, b: u8) -> (at: usize)
    requires
        from <= s@.len(),
    ensures
        from <= at <= s@.len(),
        at < s@.len() ==> s@[at as int] == b,
        at - from == index_of(s@.skip(from as int), b),
{
    let mut at: usize = from;
    while at < s.len() && s[at] != b
        invariant
            from <= at <= s@.len(),
            forall|j: int| from <= j < at ==> s@[j] != b,
        decreases s@.len() - at,
    {
        at += 1;
    }
    proof {
        let rest = s@.skip(from as int);
        assert forall|j: int| 0 <= j < at - from implies #[trigger] rest[j] != b by {
            assert(rest[j] == s@[from + j]);
        }
        lemma_index_of(rest, b, at - from);
    }
    at
}

/// Reads `s` as an unsigned numeral of at most `max`.
pub fn parse_unsigned(s: &[u8], max: u64) -> (r: Option<u64>)
    ensures
        r matches Some(v) ==> bounded_of(s@, max as nat) == Some(v as nat),
        r is None ==> bounded_of(s@, max as nat) is None,
{
    let start: usize = if s.len() > 0 && s[0] == PLUS {
        1
    } else {
        0
    };
    let ghost body = s@.skip(start as int);
    if start == s.len() {
        return None;
    }
    let mut value: u64 = 0;
    let mut i: usize = start;
    while i < s.len()
        invariant
            start <= i <= s@.len(),
            start < s@.len(),
            start == (if s@.len() > 0 && s@[0] == PLUS {
                1int
            } else {
                0int
            }),
            body == s@.skip(start as int),
            all_digits(body.take(i - start)),
            value == digits_value(body.take(i - start)),
            value <= max,
        decreases s@.len() - i,
    {
        let b: u8 = s[i];
        proof {
            assert(body[i - start] == b);
        }
        if b < ZERO || b > 0x39 {
            assert(!is_digit(body[i - start]));
            return None;
        }
        let next: u128 = value as u128 * 10 + (b - ZERO) as u128;
        proof {
            let longer = body.take(i - start + 1);
            assert(longer.drop_last() =~= body.take(i - start));
            assert(longer.last() == b);
            assert(digits_value(longer) == next);
            assert forall|j: int| 0 <= j < longer.len() implies is_digit(#[trigger] longer[j]) by {
                if j < i - start {
                    assert(longer[j] == body.take(i - start)[j]);
                }
            }
            if next > max {
                assert(body == if s@.len() > 0 && s@[0] == PLUS {
                    s@.skip(1)
                } else {
                    s@
                });
                if all_digits(body) {
                    lemma_prefix_value(body, i - start + 1);
                }
            }
        }
        if next > max as u128 {
            return None;
        }
        value = next as u64;
        i += 1;
    }
    proof {
        assert(body.take(i - start) =~= body);
        assert(body.len() > 0);
        assert(all_digits(body));
        assert(body == if s@.len() > 0 && s@[0] == PLUS { s@.skip(1) } else { s@ });
        assert(unsigned_of(s@) == Some(digits_value(body)));
    }
    Some(value)
}

/// Reads `s` as a `u32`.
pub fn parse_u32(s: &[u8]) -> (r: Option<u32>)
    ensures
        r matches Some(v) ==> bounded_of(s@, u32::MAX as nat) == Some(v as nat),
        r is None ==> bounded_of(s@, u32::MAX as nat) is None,
{
    match parse_unsigned(s, 0xffff_ffff) {
        Some(v) => Some(v as u32),
        None => None,
    }
}

/// An ASCII letter in lower case; any other byte as it is.
pub open spec fn lower(b: u8) -> u8 {
    if 0x41 <= b <= 0x5a {
        (b + 0x20) as u8
    } else {
        b
    }
}

/// Whether `b` is a sign.
pub open spec fn is_sign(b: u8) -> bool {
    b == PLUS || b == MINUS
}

/// Whether `s` is the word `word`, whatever the case of its letters.
/// `word` is in lower case.
pub open spec fn is_word(s: Seq<u8>, word: Seq<u8>) -> bool {
    s.len() == word.len() && forall|i: int| 0 <= i < s.len() ==> lower(#[trigger] s[i]) == word[i]
}

/// `s` without the sign in front of it, if it has one.
pub open spec fn unsigned_part(s: Seq<u8>) -> Seq<u8> {
    if s.len() > 0 && is_sign(s[0]) {
        s.skip(1)
    } else {
        s
    }
}

/// `i` is where the letter `e` first occurs in `s`, in either case, or the
/// length of `s` if it does not occur.
pub open spec fn is_first_e(s: Seq<u8>, i: int) -> bool {
    &&& 0 <= i <= s.len()
    &&& i < s.len() ==> lower(s[i]) == 0x65
    &&& forall|j: int| 0 <= j < i ==> lower(#[trigger] s[j]) != 0x65
}

/// Where the letter `e` first occurs in `s`, or the length of `s`.
pub open spec fn index_of_e(s: Seq<u8>) -> int {
    choose|i: int| is_first_e(s, i)
}

/// Whether `s` is a mantissa: digits, or digits with one point before,
/// among or after them, with one digit at least.
pub open spec fn is_mantissa(s: Seq<u8>) -> bool {
    let dot = index_of(s, DOT);
    let whole = s.take(dot);
    let frac = if dot < s.len() {
        s.skip(dot + 1)
    } else {
        Seq::empty()
    };
    whole.len() + frac.len() > 0 && all_digits(whole) && all_digits(frac)
}

/// Whether `s` is what follows the `e` of an exponent: a sign or nothing,
/// then one digit or more.
pub open spec fn is_exponent(s: Seq<u8>) -> bool {
    unsigned_part(s).len() > 0 && all_digits(unsigned_part(s))
}

/// Whether `s` is a number: a mantissa and, if there is more, the letter `e`
/// in either case and an exponent.
pub open spec fn is_number(s: Seq<u8>) -> bool {
    let e = index_of_e(s);
    is_mantissa(s.take(e)) && (e < s.len() ==> is_exponent(s.skip(e + 1)))
}

/// Whether `s` is the text of a floating-point number, as the standard
/// library reads one: a sign or nothing, then a number or one of the words
/// `inf`, `infinity` and `nan` in any case. Nothing may stand before or
/// after it.
pub open spec fn is_float_text(s: Seq<u8>) -> bool {
    let body = unsigned_part(s);
    ||| is_word(body, vstd::utf8::encode_utf8("inf"@))
    ||| is_word(body, vstd::utf8::encode_utf8("infinity"@))
    ||| is_word(body, vstd::utf8::encode_utf8("nan"@))
    ||| is_number(body)
}

/// Whether every byte of `s` is a digit.
fn is_all_digits(s: &[u8]) -> (r: bool)
    ensures
        r == all_digits(s@),
{
    let mut i: usize = 0;
    while i < s.len()
        invariant
            i <= s@.len(),
            forall|j: int| 0 <= j < i ==> is_digit(#[trigger] s@[j]),
        decreases s@.len() - i,
    {
        if s[i] < ZERO || s[i] > 0x39 {
            return false;
        }
        i += 1;
    }
    true
}

/// The place that `is_first_e` describes is the one `index_of_e` names.
proof fn lemma_index_of_e(s: Seq<u8>, i: int)
    requires
        is_first_e(s, i),
    ensures
        index_of_e(s) == i,
{
    let c = index_of_e(s);
    assert(is_first_e(s, c));
    if c < i {
        assert(lower(s[c]) != 0x65);
    } else if i < c {
        assert(lower(s[i]) != 0x65);
    }
}

/// Whether `s` is the word `word`, whatever the case of its letters.
fn same_word(s: &[u8], word: &[u8]) -> (r: bool)
    ensures
        r == is_word(s@, word@),
{
    if s.len() != word.len() {
        return false;
    }
    let mut i: usize = 0;
    while i < s.len()
        invariant
            i <= s@.len(),
            s@.len() == word@.len(),
            forall|j: int| 0 <= j < i ==> lower(#[trigger] s@[j]) == word@[j],
        decreases s@.len() - i,
    {
        let b: u8 = s[i];
        let low: u8 = if 0x41 <= b && b <= 0x5a {
            b + 0x20
        } else {
            b
        };
        if low != word[i] {
            assert(lower(s@[i as int]) != word@[i as int]);
            return false;
        }
        i += 1;
    }
    true
}

/// What is left of `s` from `from` on, without the sign in front of it.
fn after_sign(s: &[u8], from: usize) -> (r: &[u8])
    requires
        from <= s@.len(),
    ensures
        r@ == unsigned_part(s@.skip(from as int)),
{
    let signed: bool = from < s.len() && (s[from] == PLUS || s[from] == MINUS);
    let start: usize = if signed {
        from + 1
    } else {
        from
    };
    let r = slice_subrange(s, start, s.len());
    proof {
        let rest = s@.skip(from as int);
        if from < s@.len() {
            assert(rest[0] == s@[from as int]);
        }
        if signed {
            assert(r@ =~= rest.skip(1));
        } else {
            assert(r@ =~= rest);
        }
    }
    r
}

/// Whether `s` is a mantissa.
fn check_mantissa(s: &[u8]) -> (r: bool)
    ensures
        r == is_mantissa(s@),
{
    let dot: usize = find_byte(s, 0, DOT);
    let whole = slice_subrange(s, 0, dot);
    let frac = if dot < s.len() {
        slice_subrange(s, dot + 1, s.len())
    } else {
        slice_subrange(s, dot, dot)
    };
    proof {
        assert(s@.skip(0) =~= s@);
        assert(whole@ =~= s@.take(dot as int));
        if dot < s@.len() {
            assert(frac@ =~= s@.skip(dot + 1));
        } else {
            assert(frac@ =~= Seq::<u8>::empty());
        }
    }
    whole.len() + frac.len() > 0 && is_all_digits(whole) && is_all_digits(frac)
}

/// Whether `s` is a number.
fn check_number(s: &[u8]) -> (r: bool)
    ensures
        r == is_number(s@),
{
    let mut e: usize = 0;
    while e < s.len() && s[e] != 0x65 && s[e] != 0x45
        invariant
            e <= s@.len(),
            forall|j: int| 0 <= j < e ==> lower(#[trigger] s@[j]) != 0x65,
        decreases s@.len() - e,
    {
        e += 1;
    }
    proof {
        lemma_index_of_e(s@, e as int);
    }
    let mantissa = slice_subrange(s, 0, e);
    proof {
        assert(mantissa@ =~= s@.take(e as int));
    }
    if !check_mantissa(mantissa) {
        return false;
    }
    if e == s.len() {
        return true;
    }
    let digits = after_sign(s, e + 1);
    digits.len() > 0 && is_all_digits(digits)
}

/// Whether `s` is the text of a floating-point number.
pub fn is_float(s: &[u8]) -> (r: bool)
    ensures
        r == is_float_text(s@),
{
    proof {
        assert(s@.skip(0) =~= s@);
    }
    let body = after_sign(s, 0);
    same_word(body, "inf".as_bytes()) || same_word(body, "infinity".as_bytes()) || same_word(
        body,
        "nan".as_bytes(),
    ) || check_number(body)
}

} // verus!
