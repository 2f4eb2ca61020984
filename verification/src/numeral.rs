//! The notation of real numbers.
//!
//! ```text
//! Numeral  ::= Sign? ( 'inf' | 'infinity' | 'nan' | Number )
//! Number   ::= Mantissa Exponent?
//! Mantissa ::= Digit+ | Digit+ '.' Digit* | Digit* '.' Digit+
//! Exponent ::= 'e' Sign? Digit+
//! ```
//!
//! Letters may be of either case. These are the texts from which `str::parse` makes a
//! floating-point number.

use vstd::prelude::*;

use crate::decimal::all_digits;
use crate::decimal::is_digit;
use crate::text::chars_of;

verus! {

/// A text without the one sign that it may start with.
pub open spec fn without_sign(s: Seq<char>) -> Seq<char> {
    if s.len() > 0 && (s[0] == '+' || s[0] == '-') {
        s.skip(1)
    } else {
        s
    }
}

/// Digits, with at most one point among, before or behind them.
pub open spec fn is_mantissa(s: Seq<char>) -> bool {
    ||| s.len() > 0 && all_digits(s)
    ||| s.len() > 1 && exists|d: int|
        0 <= d < s.len() && #[trigger] s[d] == '.' && all_digits(s.take(d)) && all_digits(s.skip(d + 1))
}

/// The letter `e`, then a whole number that may have a sign.
pub open spec fn is_exponent(s: Seq<char>) -> bool {
    &&& s.len() > 0
    &&& s[0] == 'e' || s[0] == 'E'
    &&& without_sign(s.skip(1)).len() > 0
    &&& all_digits(without_sign(s.skip(1)))
}

/// A mantissa, alone or before an exponent.
pub open spec fn is_number(s: Seq<char>) -> bool {
    exists|k: int|
        0 <= k <= s.len() && is_mantissa(#[trigger] s.take(k)) && (k == s.len() || is_exponent(
            s.skip(k),
        ))
}

/// Two characters are the same but for the case of an ASCII letter; the second is in lower
/// case.
pub open spec fn same_letter(c: char, lower: char) -> bool {
    c == lower || ('A' <= c <= 'Z' && c as u32 + 32 == lower as u32)
}

/// Two texts are the same but for the case of ASCII letters; the second is in lower case.
pub open spec fn same_letters(s: Seq<char>, lower: Seq<char>) -> bool {
    &&& s.len() == lower.len()
    &&& forall|i: int| 0 <= i < s.len() ==> same_letter(#[trigger] s[i], lower[i])
}

/// The words for what no digits denote.
pub open spec fn is_special(s: Seq<char>) -> bool {
    ||| same_letters(s, "inf"@)
    ||| same_letters(s, "infinity"@)
    ||| same_letters(s, "nan"@)
}

/// The text denotes a real number, an infinity or no number.
pub open spec fn is_numeral(s: Seq<char>) -> bool {
    is_special(without_sign(s)) || is_number(without_sign(s))
}

/// A character of ASCII that leaves a mark.
pub open spec fn is_printable(c: char) -> bool {
    '!' <= c <= '~'
}

proof fn lemma_special_is_printable(s: Seq<char>)
    requires
        is_special(s),
    ensures
        s.len() > 0,
        forall|i: int| 0 <= i < s.len() ==> is_printable(#[trigger] s[i]),
{
    reveal_strlit("inf");
    reveal_strlit("infinity");
    reveal_strlit("nan");
}

proof fn lemma_number_is_printable(s: Seq<char>)
    requires
        is_number(s),
    ensures
        s.len() > 0,
        forall|i: int| 0 <= i < s.len() ==> is_printable(#[trigger] s[i]),
{
    let k = choose|k: int|
        0 <= k <= s.len() && is_mantissa(#[trigger] s.take(k)) && (k == s.len() || is_exponent(
            s.skip(k),
        ));
    let m = s.take(k);
    let e = s.skip(k);
    assert forall|i: int| 0 <= i < s.len() implies is_printable(#[trigger] s[i]) by {
        if i < k {
            assert(m[i] == s[i]);
            if !all_digits(m) {
                let d = choose|d: int|
                    0 <= d < m.len() && #[trigger] m[d] == '.' && all_digits(m.take(d)) && all_digits(
                        m.skip(d + 1),
                    );
                if i < d {
                    assert(m.take(d)[i] == m[i]);
                } else if i > d {
                    assert(m.skip(d + 1)[i - d - 1] == m[i]);
                }
            }
        } else if i > k {
            assert(e.skip(1)[i - k - 1] == s[i]);
            if without_sign(e.skip(1)) != e.skip(1) {
                if i > k + 1 {
                    assert(e.skip(1).skip(1)[i - k - 2] == s[i]);
                } else {
                    assert(e.skip(1)[0] == s[i]);
                }
            }
        } else {
            assert(e[0] == s[i]);
        }
    }
}

/// A numeral is not empty and has no whitespace in it.
pub proof fn numeral_is_printable(s: Seq<char>)
    requires
        is_numeral(s),
    ensures
        s.len() > 0,
        forall|i: int| 0 <= i < s.len() ==> is_printable(#[trigger] s[i]),
{
    let t = without_sign(s);
    if is_special(t) {
        lemma_special_is_printable(t);
    } else {
        lemma_number_is_printable(t);
    }
    assert forall|i: int| 0 <= i < s.len() implies is_printable(#[trigger] s[i]) by {
        if t == s.skip(1) && i > 0 {
            assert(t[i - 1] == s[i]);
        }
    }
}

/// The parts of which a number is put together.
pub struct NumberParts {
    pub sign: Option<char>,
    /// The digits before the point.
    pub whole: Seq<char>,
    /// The digits behind the point, if there is one.
    pub fraction: Option<Seq<char>>,
    /// The letter, the sign and the digits of the exponent, if there is one.
    pub exponent: Option<(char, Option<char>, Seq<char>)>,
}

/// A sign, or none.
pub open spec fn sign_or_none(sign: Option<char>) -> bool {
    sign matches Some(c) ==> c == '+' || c == '-'
}

/// The text of a character that may be missing.
pub open spec fn spelled_sign(sign: Option<char>) -> Seq<char> {
    match sign {
        Some(c) => seq![c],
        None => Seq::empty(),
    }
}

/// A row of the characters with the codes of the ten digits.
pub open spec fn digit_row(s: Seq<char>) -> bool {
    forall|i: int| 0 <= i < s.len() ==> 48 <= (#[trigger] s[i]) as int <= 57
}

impl NumberParts {
    /// The parts fit together: there is a digit before or behind the point, and one in the
    /// exponent.
    pub open spec fn fit(self) -> bool {
        &&& sign_or_none(self.sign)
        &&& digit_row(self.whole)
        &&& match self.fraction {
            Some(fraction) => digit_row(fraction) && self.whole.len() + fraction.len() > 0,
            None => self.whole.len() > 0,
        }
        &&& self.exponent matches Some((letter, sign, digits)) ==> {
            &&& letter == 'e' || letter == 'E'
            &&& sign_or_none(sign)
            &&& digit_row(digits)
            &&& digits.len() > 0
        }
    }

    /// The parts put together.
    pub open spec fn spelled(self) -> Seq<char> {
        spelled_sign(self.sign) + self.whole + (match self.fraction {
            Some(fraction) => seq!['.'] + fraction,
            None => Seq::empty(),
        }) + (match self.exponent {
            Some((letter, sign, digits)) => seq![letter] + spelled_sign(sign) + digits,
            None => Seq::empty(),
        })
    }
}

/// A word in letters of either case; the word itself is in lower case.
pub open spec fn in_any_case(s: Seq<char>, word: Seq<char>) -> bool {
    &&& s.len() == word.len()
    &&& forall|i: int|
        0 <= i < s.len() ==> (#[trigger] s[i] == word[i] || s[i] as int + 32 == word[i] as int)
}

/// The text is the notation of a floating-point number: a number put together of its parts,
/// or one of the words `inf`, `infinity` and `nan`, which may have a sign.
pub open spec fn is_float_notation(s: Seq<char>) -> bool {
    ||| exists|parts: NumberParts| parts.fit() && #[trigger] parts.spelled() == s
    ||| exists|sign: Option<char>, word: Seq<char>|
        sign_or_none(sign) && s == #[trigger] (spelled_sign(sign) + word) && (in_any_case(
            word,
            seq!['i', 'n', 'f'],
        ) || in_any_case(word, seq!['i', 'n', 'f', 'i', 'n', 'i', 't', 'y']) || in_any_case(
            word,
            seq!['n', 'a', 'n'],
        ))
}

proof fn lemma_special_words(s: Seq<char>)
    ensures
        is_special(s) <==> in_any_case(s, seq!['i', 'n', 'f']) || in_any_case(
            s,
            seq!['i', 'n', 'f', 'i', 'n', 'i', 't', 'y'],
        ) || in_any_case(s, seq!['n', 'a', 'n']),
{
    reveal_strlit("inf");
    reveal_strlit("infinity");
    reveal_strlit("nan");
    assert("inf"@ =~= seq!['i', 'n', 'f']);
    assert("infinity"@ =~= seq!['i', 'n', 'f', 'i', 'n', 'i', 't', 'y']);
    assert("nan"@ =~= seq!['n', 'a', 'n']);
    assert forall|word: Seq<char>|
        (forall|i: int| 0 <= i < word.len() ==> 97 <= (#[trigger] word[i]) as int
            <= 122) implies #[trigger] same_letters(s, word) == in_any_case(s, word) by {
        if in_any_case(s, word) {
            assert forall|i: int| 0 <= i < s.len() implies same_letter(#[trigger] s[i], word[i]) by {
                assert(97 <= word[i] as int <= 122);
            }
        }
        if same_letters(s, word) {
            assert forall|i: int| 0 <= i < s.len() implies (#[trigger] s[i] == word[i] || s[i] as int
                + 32 == word[i] as int) by {
                assert(same_letter(s[i], word[i]));
            }
        }
    }
}

proof fn lemma_parts_are_numeral(parts: NumberParts)
    requires
        parts.fit(),
    ensures
        is_numeral(parts.spelled()),
{
    let s = parts.spelled();
    let front = match parts.fraction {
        Some(fraction) => parts.whole + (seq!['.'] + fraction),
        None => parts.whole,
    };
    let back = match parts.exponent {
        Some((letter, sign, digits)) => seq![letter] + spelled_sign(sign) + digits,
        None => Seq::empty(),
    };
    let t = front + back;
    assert(s =~= spelled_sign(parts.sign) + t);
    if parts.sign is Some {
        assert(s.skip(1) =~= t);
    } else {
        assert(s =~= t);
        assert(t[0] == front[0]);
        if parts.whole.len() > 0 {
            assert(front[0] == parts.whole[0]);
        }
    }
    assert(without_sign(s) == t);
    let k = front.len() as int;
    assert(t.take(k) =~= front);
    assert(t.skip(k) =~= back);
    match parts.fraction {
        Some(fraction) => {
            let d = parts.whole.len() as int;
            assert(front[d] == '.');
            assert(front.take(d) =~= parts.whole);
            assert(front.skip(d + 1) =~= fraction);
            assert(is_mantissa(front));
        },
        None => {
            assert(is_mantissa(front));
        },
    }
    if let Some((letter, sign, digits)) = parts.exponent {
        assert(back[0] == letter);
        assert(back.skip(1) =~= spelled_sign(sign) + digits);
        if sign is Some {
            assert(back.skip(1).skip(1) =~= digits);
        } else {
            assert(back.skip(1) =~= digits);
            assert(48 <= digits[0] as int);
        }
        assert(without_sign(back.skip(1)) == digits);
        assert(is_exponent(back));
    }
    assert(is_number(t));
}

proof fn lemma_numeral_has_parts(s: Seq<char>)
    requires
        is_number(without_sign(s)),
    ensures
        exists|parts: NumberParts| parts.fit() && #[trigger] parts.spelled() == s,
{
    let t = without_sign(s);
    let k = choose|k: int|
        0 <= k <= t.len() && is_mantissa(#[trigger] t.take(k)) && (k == t.len() || is_exponent(
            t.skip(k),
        ));
    let front = t.take(k);
    let back = t.skip(k);
    let sign = if t == s {
        None
    } else {
        Some(s[0])
    };
    assert(s =~= spelled_sign(sign) + t);
    let exponent = if k == t.len() {
        None
    } else {
        let rest = back.skip(1);
        let digits = without_sign(rest);
        if digits == rest {
            Some((back[0], None::<char>, digits))
        } else {
            Some((back[0], Some(rest[0]), digits))
        }
    };
    let spelled_exponent = match exponent {
        Some((letter, sign, digits)) => seq![letter] + spelled_sign(sign) + digits,
        None => Seq::empty(),
    };
    if k < t.len() {
        assert(back =~= seq![back[0]] + back.skip(1));
        assert(back =~= spelled_exponent);
        assert forall|i: int| 0 <= i < without_sign(back.skip(1)).len() implies 48 <= (
        #[trigger] without_sign(back.skip(1))[i]) as int <= 57 by {
            assert(is_digit(without_sign(back.skip(1))[i]));
        }
    } else {
        assert(back =~= spelled_exponent);
    }
    if front.len() > 0 && all_digits(front) {
        let parts = NumberParts { sign, whole: front, fraction: None, exponent };
        assert forall|i: int| 0 <= i < front.len() implies 48 <= (#[trigger] front[i]) as int
            <= 57 by {
            assert(is_digit(front[i]));
        }
        assert(parts.spelled() =~= spelled_sign(sign) + (front + back));
        assert(front + back =~= t);
        assert(parts.fit());
    } else {
        let d = choose|d: int|
            0 <= d < front.len() && #[trigger] front[d] == '.' && all_digits(front.take(d))
                && all_digits(front.skip(d + 1));
        let whole = front.take(d);
        let fraction = front.skip(d + 1);
        let parts = NumberParts { sign, whole, fraction: Some(fraction), exponent };
        assert forall|i: int| 0 <= i < whole.len() implies 48 <= (#[trigger] whole[i]) as int
            <= 57 by {
            assert(is_digit(whole[i]));
        }
        assert forall|i: int| 0 <= i < fraction.len() implies 48 <= (#[trigger] fraction[i]) as int
            <= 57 by {
            assert(is_digit(fraction[i]));
        }
        assert(front =~= whole + (seq!['.'] + fraction));
        assert(parts.spelled() =~= spelled_sign(sign) + (front + back));
        assert(front + back =~= t);
        assert(parts.fit());
    }
}

/// The numerals are the texts that spell a floating-point number: whatever is put together of
/// fitting parts is a numeral, however long its rows of digits are, and so are the words for
/// infinity and for no number; nothing else is.
pub proof fn numerals_spell_floats(s: Seq<char>)
    ensures
        is_numeral(s) <==> is_float_notation(s),
{
    let t = without_sign(s);
    lemma_special_words(t);
    if is_numeral(s) {
        if is_special(t) {
            let sign = if t == s {
                None
            } else {
                Some(s[0])
            };
            assert(s =~= spelled_sign(sign) + t);
        } else {
            lemma_numeral_has_parts(s);
        }
    }
    if is_float_notation(s) {
        if exists|parts: NumberParts| parts.fit() && #[trigger] parts.spelled() == s {
            let parts = choose|parts: NumberParts| parts.fit() && #[trigger] parts.spelled() == s;
            lemma_parts_are_numeral(parts);
        } else {
            let (sign, word) = choose|sign: Option<char>, word: Seq<char>|
                sign_or_none(sign) && s == #[trigger] (spelled_sign(sign) + word) && (in_any_case(
                    word,
                    seq!['i', 'n', 'f'],
                ) || in_any_case(word, seq!['i', 'n', 'f', 'i', 'n', 'i', 't', 'y'])
                    || in_any_case(word, seq!['n', 'a', 'n']));
            lemma_special_words(word);
            if sign is Some {
                assert(s.skip(1) =~= word);
            } else {
                assert(s =~= word);
            }
            assert(without_sign(s) == word);
        }
    }
}

/// Rows of digits of any length, with a point between them, are a numeral.
pub proof fn digits_around_a_point_are_a_numeral(a: Seq<char>, b: Seq<char>)
    requires
        a.len() + b.len() > 0,
        forall|i: int| 0 <= i < a.len() ==> '0' <= #[trigger] a[i] <= '9',
        forall|i: int| 0 <= i < b.len() ==> '0' <= #[trigger] b[i] <= '9',
    ensures
        is_numeral(a + seq!['.'] + b),
        is_numeral(seq!['-'] + a + seq!['.'] + b),
        a.len() > 0 ==> is_numeral(a) && is_numeral(seq!['-'] + a),
{
    let plain = NumberParts { sign: None, whole: a, fraction: Some(b), exponent: None };
    let negative = NumberParts { sign: Some('-'), ..plain };
    lemma_parts_are_numeral(plain);
    lemma_parts_are_numeral(negative);
    assert(plain.spelled() =~= a + seq!['.'] + b);
    assert(negative.spelled() =~= seq!['-'] + a + seq!['.'] + b);
    if a.len() > 0 {
        let whole = NumberParts { fraction: None, ..plain };
        let negative_whole = NumberParts { fraction: None, ..negative };
        lemma_parts_are_numeral(whole);
        lemma_parts_are_numeral(negative_whole);
        assert(whole.spelled() =~= a);
        assert(negative_whole.spelled() =~= seq!['-'] + a);
    }
}

/// Whether a text is a word, whatever the case of its letters, from a position on.
fn word_at(chars: &Vec<char>, from: usize, word: &str) -> (yes: bool)
    requires
        from <= chars@.len(),
    ensures
        yes == same_letters(chars@.skip(from as int), word@),
{
    let letters = chars_of(word);
    if chars.len() - from != letters.len() {
        return false;
    }
    let mut i: usize = 0;
    while i < letters.len()
        invariant
            i <= letters@.len(),
            letters@ == word@,
            from + letters@.len() == chars.len(),
            forall|j: int| 0 <= j < i ==> same_letter(#[trigger] chars@.skip(from as int)[j], letters@[j]),
        decreases letters@.len() - i,
    {
        let c = chars[from + i];
        assert(chars@.skip(from as int)[i as int] == c);
        let l = letters[i];
        let same = c == l || ('A' <= c && c <= 'Z' && c as u32 + 32 == l as u32);
        assert(same == same_letter(c, l));
        if !same {
            return false;
        }
        i += 1;
    }
    true
}

/// The end of the digits that stand from a position on.
fn digits_end(chars: &Vec<char>, from: usize) -> (end: usize)
    requires
        from <= chars@.len(),
    ensures
        from <= end <= chars@.len(),
        forall|j: int| from <= j < end ==> is_digit(#[trigger] chars@[j]),
        end < chars@.len() ==> !is_digit(chars@[end as int]),
{
    let mut end: usize = from;
    while end < chars.len() && '0' <= chars[end] && chars[end] <= '9'
        invariant
            from <= end <= chars@.len(),
            forall|j: int| from <= j < end ==> is_digit(#[trigger] chars@[j]),
        decreases chars@.len() - end,
    {
        end += 1;
    }
    end
}

/// Whether there is an exponent, and nothing else, from a position on.
fn exponent_at(chars: &Vec<char>, from: usize) -> (yes: bool)
    requires
        from <= chars@.len(),
    ensures
        yes == is_exponent(chars@.skip(from as int)),
{
    let ghost s = chars@.skip(from as int);
    if from == chars.len() || !(chars[from] == 'e' || chars[from] == 'E') {
        return false;
    }
    let mut start: usize = from + 1;
    assert(s.skip(1) =~= chars@.skip(start as int));
    if start < chars.len() && (chars[start] == '+' || chars[start] == '-') {
        start += 1;
        assert(s.skip(1).skip(1) =~= chars@.skip(start as int));
    }
    let ghost t = without_sign(s.skip(1));
    assert(t == chars@.skip(start as int));
    let end = digits_end(chars, start);
    assert(forall|j: int| 0 <= j < t.len() ==> #[trigger] t[j] == chars@[start + j]);
    assert(end < chars@.len() ==> !is_digit(t[end - start]));
    start < end && end == chars.len()
}

/// Whether there is a number, and nothing else, from a position on.
fn number_at(chars: &Vec<char>, from: usize) -> (yes: bool)
    requires
        from <= chars@.len(),
    ensures
        yes == is_number(chars@.skip(from as int)),
{
    let ghost s = chars@.skip(from as int);
    assert(forall|j: int| 0 <= j < s.len() ==> #[trigger] s[j] == chars@[from + j]);
    let whole = digits_end(chars, from);
    let pointed = whole < chars.len() && chars[whole] == '.';
    let end = if pointed { digits_end(chars, whole + 1) } else { whole };
    let good = if pointed { end - from > 1 } else { end > from };
    let ghost k = end - from;
    proof {
        let m = s.take(k);
        if good {
            if pointed {
                let d = whole - from;
                assert(m[d] == '.');
                assert(all_digits(m.take(d)));
                assert(all_digits(m.skip(d + 1)));
            }
            assert(is_mantissa(m));
        }
        assert forall|n: int|
            0 <= n <= s.len() && is_mantissa(#[trigger] s.take(n)) && (n == s.len() || is_exponent(
                s.skip(n),
            )) implies n == k && good by {
            let p = s.take(n);
            assert(n < s.len() ==> s[n] == s.skip(n)[0]);
            assert(end < chars@.len() ==> !is_digit(s[k]));
            if p.len() > 0 && all_digits(p) {
                assert(forall|j: int| 0 <= j < n ==> is_digit(#[trigger] p[j]) && p[j] == s[j]);
                if whole - from < n {
                    assert(is_digit(p[whole - from]));
                }
                if n < whole - from {
                    assert(is_digit(chars@[from + n]));
                }
            } else {
                let d = choose|d: int|
                    0 <= d < p.len() && #[trigger] p[d] == '.' && all_digits(p.take(d)) && all_digits(
                        p.skip(d + 1),
                    );
                assert(s[d] == '.');
                if whole - from < d {
                    assert(is_digit(p.take(d)[whole - from]));
                }
                if d < whole - from {
                    assert(is_digit(chars@[from + d]));
                }
                assert(d == whole - from);
                if k < n {
                    assert(is_digit(p.skip(d + 1)[k - d - 1]));
                }
                if n < k {
                    assert(is_digit(chars@[from + n]));
                }
            }
        }
        if good && k == s.len() {
            assert(is_number(s));
        }
        assert(s.skip(k) =~= chars@.skip(end as int));
    }
    good && (end == chars.len() || exponent_at(chars, end))
}

/// Whether a text denotes a real number, an infinity or no number.
pub fn numeral(text: &str) -> (yes: bool)
    ensures
        yes == is_numeral(text@),
{
    let chars = chars_of(text);
    let from: usize = if chars.len() > 0 && (chars[0] == '+' || chars[0] == '-') { 1 } else { 0 };
    assert(chars@.skip(from as int) =~= without_sign(text@));
    word_at(&chars, from, "inf") || word_at(&chars, from, "infinity") || word_at(
        &chars,
        from,
        "nan",
    ) || number_at(&chars, from)
}

/// A text is taken for a number exactly if it spells a floating-point number.
pub proof fn numbers_are_recognised(text: &str, yes: bool)
    requires
        call_ensures(numeral, (text,), yes),
    ensures
        yes <==> is_float_notation(text@),
{
    numerals_spell_floats(text@);
}

} // verus!
