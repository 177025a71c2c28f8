//! The grammar of a floating-point literal, as `str::parse` reads one.
//!
//! ```text
//! literal  ::= sign? ( number | "inf" | "infinity" | "nan" )
//! number   ::= mantissa ( ("e" | "E") sign? digit+ )?
//! mantissa ::= digit+ | digit+ "." digit* | digit* "." digit+
//! sign     ::= "+" | "-"
//! ```
//!
//! The three words are read without regard to case. Nothing is trimmed: a
//! literal holds no white space. This module decides whether a text is a
//! literal; it does not compute the number that the literal stands for.

use vstd::prelude::*;
use vstd::slice::slice_subrange;

verus! {

/// A decimal digit.
pub open spec fn is_digit(c: char) -> bool {
    '0' <= c && c <= '9'
}

/// Every element of `s` is a decimal digit. The empty sequence qualifies.
pub open spec fn all_digits(s: Seq<char>) -> bool {
    forall|i: int| 0 <= i < s.len() ==> is_digit(#[trigger] s[i])
}

/// The index of the first element of `s` that is `a` or `b`, or the length of
/// `s` where it holds neither.
pub open spec fn first_of(s: Seq<char>, a: char, b: char) -> int
    decreases s.len(),
{
    if s.len() == 0 || s[0] == a || s[0] == b {
        0
    } else {
        1 + first_of(s.drop_first(), a, b)
    }
}

/// What stands in `s` before the first `a` or `b`: all of `s` where it holds
/// neither.
pub open spec fn before(s: Seq<char>, a: char, b: char) -> Seq<char> {
    s.take(first_of(s, a, b))
}

/// What stands in `s` behind the first `a` or `b`, or `None` where it holds
/// neither.
pub open spec fn after(s: Seq<char>, a: char, b: char) -> Option<Seq<char>> {
    if first_of(s, a, b) < s.len() {
        Some(s.skip(first_of(s, a, b) + 1))
    } else {
        None
    }
}

/// `s` without its leading sign, if it has one.
pub open spec fn unsigned(s: Seq<char>) -> Seq<char> {
    if s.len() > 0 && (s[0] == '+' || s[0] == '-') {
        s.drop_first()
    } else {
        s
    }
}

/// Digits with at most one point among them, and at least one digit.
pub open spec fn is_mantissa(s: Seq<char>) -> bool {
    let whole = before(s, '.', '.');
    match after(s, '.', '.') {
        None => whole.len() > 0 && all_digits(whole),
        Some(fraction) => all_digits(whole) && all_digits(fraction) && whole.len()
            + fraction.len() > 0,
    }
}

/// An optional sign and at least one digit: what follows the exponent mark.
pub open spec fn is_exponent(s: Seq<char>) -> bool {
    unsigned(s).len() > 0 && all_digits(unsigned(s))
}

/// A mantissa, alone or followed by an exponent mark and an exponent.
pub open spec fn is_number(s: Seq<char>) -> bool {
    is_mantissa(before(s, 'e', 'E')) && match after(s, 'e', 'E') {
        None => true,
        Some(exponent) => is_exponent(exponent),
    }
}

/// `c` is the letter `lower` in either case.
pub open spec fn is_letter(c: char, lower: char, upper: char) -> bool {
    c == lower || c == upper
}

/// The word `inf`, in any mix of cases.
pub open spec fn is_inf(s: Seq<char>) -> bool {
    &&& s.len() == 3
    &&& is_letter(s[0], 'i', 'I')
    &&& is_letter(s[1], 'n', 'N')
    &&& is_letter(s[2], 'f', 'F')
}

/// The word `nan`, in any mix of cases.
pub open spec fn is_nan(s: Seq<char>) -> bool {
    &&& s.len() == 3
    &&& is_letter(s[0], 'n', 'N')
    &&& is_letter(s[1], 'a', 'A')
    &&& is_letter(s[2], 'n', 'N')
}

/// The word `infinity`, in any mix of cases.
pub open spec fn is_infinity(s: Seq<char>) -> bool {
    &&& s.len() == 8
    &&& is_inf(s.take(3))
    &&& is_letter(s[3], 'i', 'I')
    &&& is_letter(s[4], 'n', 'N')
    &&& is_letter(s[5], 'i', 'I')
    &&& is_letter(s[6], 't', 'T')
    &&& is_letter(s[7], 'y', 'Y')
}

/// `s` is a floating-point literal: after an optional sign, a number or one
/// of the words for infinity and for "not a number".
pub open spec fn float_literal(s: Seq<char>) -> bool {
    let body = unsigned(s);
    is_number(body) || is_inf(body) || is_infinity(body) || is_nan(body)
}

/// `first_of` is the one index below which neither mark stands and at which
/// one of them does, or the sequence ends.
pub proof fn lemma_first_of(s: Seq<char>, a: char, b: char, i: int)
    requires
        0 <= i <= s.len(),
        forall|j: int| 0 <= j < i ==> s[j] != a && s[j] != b,
        i < s.len() ==> s[i] == a || s[i] == b,
    ensures
        first_of(s, a, b) == i,
    decreases s.len(),
{
    if i > 0 {
        let t = s.drop_first();
        assert forall|j: int| 0 <= j < i - 1 implies t[j] != a && t[j] != b by {
            assert(t[j] == s[j + 1]);
        }
        lemma_first_of(t, a, b, i - 1);
    }
}

/// What `first_of` returns lies within the sequence, neither mark stands
/// below it, and one of them stands at it unless the sequence ends there.
pub proof fn lemma_first_of_is_first(s: Seq<char>, a: char, b: char)
    ensures
        0 <= first_of(s, a, b) <= s.len(),
        forall|j: int| 0 <= j < first_of(s, a, b) ==> s[j] != a && s[j] != b,
        first_of(s, a, b) < s.len() ==> s[first_of(s, a, b)] == a || s[first_of(s, a, b)] == b,
    decreases s.len(),
{
    if !(s.len() == 0 || s[0] == a || s[0] == b) {
        let t = s.drop_first();
        lemma_first_of_is_first(t, a, b);
        assert forall|j: int| 0 <= j < first_of(s, a, b) implies s[j] != a && s[j] != b by {
            if j > 0 {
                assert(s[j] == t[j - 1]);
            }
        }
    }
}

/// A character that a literal may hold: a digit, a sign, the point or a
/// letter of the Latin alphabet.
pub open spec fn literal_char(c: char) -> bool {
    ||| is_digit(c)
    ||| c == '+'
    ||| c == '-'
    ||| c == '.'
    ||| ('a' <= c && c <= 'z')
    ||| ('A' <= c && c <= 'Z')
}

/// A mantissa holds digits and points only.
proof fn lemma_mantissa_alphabet(s: Seq<char>, i: int)
    requires
        is_mantissa(s),
        0 <= i < s.len(),
    ensures
        is_digit(s[i]) || s[i] == '.',
{
    lemma_first_of_is_first(s, '.', '.');
    let point = first_of(s, '.', '.');
    if i < point {
        assert(before(s, '.', '.')[i] == s[i]);
    } else if i > point {
        assert(after(s, '.', '.')->0[i - point - 1] == s[i]);
    }
}

/// An exponent holds digits and signs only.
proof fn lemma_exponent_alphabet(s: Seq<char>, i: int)
    requires
        is_exponent(s),
        0 <= i < s.len(),
    ensures
        is_digit(s[i]) || s[i] == '+' || s[i] == '-',
{
    if unsigned(s).len() < s.len() {
        if i > 0 {
            assert(unsigned(s)[i - 1] == s[i]);
        }
    } else {
        assert(unsigned(s)[i] == s[i]);
    }
}

/// Every character of a floating-point literal is a digit, a sign, the point
/// or a letter. So a literal holds no comma and no white space.
pub proof fn lemma_literal_alphabet(s: Seq<char>)
    requires
        float_literal(s),
    ensures
        s.len() > 0,
        forall|i: int| 0 <= i < s.len() ==> literal_char(#[trigger] s[i]),
{
    let body = unsigned(s);
    lemma_first_of_is_first(body, 'e', 'E');
    lemma_first_of_is_first(before(body, 'e', 'E'), '.', '.');
    let mark = first_of(body, 'e', 'E');
    assert forall|i: int| 0 <= i < body.len() implies literal_char(#[trigger] body[i]) by {
        if is_number(body) {
            if i < mark {
                lemma_mantissa_alphabet(before(body, 'e', 'E'), i);
            } else if i > mark {
                lemma_exponent_alphabet(after(body, 'e', 'E')->0, i - mark - 1);
            }
        } else if is_infinity(body) {
            if i < 3 {
                assert(body.take(3)[i] == body[i]);
            }
        }
    }
    assert forall|i: int| 0 <= i < s.len() implies literal_char(#[trigger] s[i]) by {
        if body.len() < s.len() {
            if i > 0 {
                assert(body[i - 1] == s[i]);
            }
        } else {
            assert(body[i] == s[i]);
        }
    }
}

/// The characters of `s`, in order.
pub fn chars_of(s: &str) -> (v: Vec<char>)
    ensures
        v@ == s@,
{
    broadcast use vstd::string::group_string_axioms;

    let mut v: Vec<char> = Vec::new();
    for c in it: s.chars()
        invariant
            it.seq() == s@,
            v@ == s@.take(it.index() as int),
    {
        v.push(c);
        assert(v@ =~= s@.take(it.index() + 1));
    }
    assert(v@ =~= s@);
    v
}

/// Finds the first `a` or `b` in `s`.
pub fn find_first(s: &[char], a: char, b: char) -> (i: usize)
    ensures
        i == first_of(s@, a, b),
        i <= s@.len(),
{
    let mut i: usize = 0;
    while i < s.len() && s[i] != a && s[i] != b
        invariant
            i <= s@.len(),
            forall|j: int| 0 <= j < i ==> s@[j] != a && s@[j] != b,
        decreases s@.len() - i,
    {
        i += 1;
    }
    proof {
        lemma_first_of(s@, a, b, i as int);
    }
    i
}

/// Tells whether `s` holds digits only.
pub fn only_digits(s: &[char]) -> (r: bool)
    ensures
        r == all_digits(s@),
{
    let mut i: usize = 0;
    while i < s.len()
        invariant
            i <= s@.len(),
            forall|j: int| 0 <= j < i ==> is_digit(#[trigger] s@[j]),
        decreases s@.len() - i,
    {
        let c: char = s[i];
        if !('0' <= c && c <= '9') {
            return false;
        }
        i += 1;
    }
    true
}

/// Drops a leading sign.
fn strip_sign(s: &[char]) -> (r: &[char])
    ensures
        r@ == unsigned(s@),
{
    if s.len() > 0 && (s[0] == '+' || s[0] == '-') {
        slice_subrange(s, 1, s.len())
    } else {
        s
    }
}

/// Tells whether `s` is a mantissa.
fn mantissa(s: &[char]) -> (r: bool)
    ensures
        r == is_mantissa(s@),
{
    let point: usize = find_first(s, '.', '.');
    let whole = slice_subrange(s, 0, point);
    if point == s.len() {
        point > 0 && only_digits(whole)
    } else {
        let fraction = slice_subrange(s, point + 1, s.len());
        s.len() > 1 && only_digits(whole) && only_digits(fraction)
    }
}

/// Tells whether `s` is a number.
fn number(s: &[char]) -> (r: bool)
    ensures
        r == is_number(s@),
{
    let mark: usize = find_first(s, 'e', 'E');
    if !mantissa(slice_subrange(s, 0, mark)) {
        return false;
    }
    if mark == s.len() {
        true
    } else {
        let digits = strip_sign(slice_subrange(s, mark + 1, s.len()));
        digits.len() > 0 && only_digits(digits)
    }
}

/// Tells whether `c` is the letter `lower` in either case.
fn letter(c: char, lower: char, upper: char) -> (r: bool)
    ensures
        r == is_letter(c, lower, upper),
{
    c == lower || c == upper
}

/// Tells whether `s` is one of the three words.
fn special(s: &[char]) -> (r: bool)
    ensures
        r == (is_inf(s@) || is_infinity(s@) || is_nan(s@)),
{
    if s.len() == 3 {
        (letter(s[0], 'i', 'I') && letter(s[1], 'n', 'N') && letter(s[2], 'f', 'F')) || (letter(
            s[0],
            'n',
            'N',
        ) && letter(s[1], 'a', 'A') && letter(s[2], 'n', 'N'))
    } else if s.len() == 8 {
        letter(s[0], 'i', 'I') && letter(s[1], 'n', 'N') && letter(s[2], 'f', 'F') && letter(
            s[3],
            'i',
            'I',
        ) && letter(s[4], 'n', 'N') && letter(s[5], 'i', 'I') && letter(s[6], 't', 'T') && letter(
            s[7],
            'y',
            'Y',
        )
    } else {
        false
    }
}

/// Tells whether the characters `s` form a floating-point literal.
pub fn is_float_literal_chars(s: &[char]) -> (r: bool)
    ensures
        r == float_literal(s@),
{
    let body = strip_sign(s);
    number(body) || special(body)
}

/// Tells whether `s` is a floating-point literal.
pub fn is_float_literal(s: &str) -> (r: bool)
    ensures
        r == float_literal(s@),
{
    let chars = chars_of(s);
    is_float_literal_chars(chars.as_slice())
}

} // verus!
