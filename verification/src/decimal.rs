//! Whole numbers in decimal notation.

use vstd::prelude::*;

use crate::text::chars_of;

verus! {

/// One of the characters `0` to `9`.
pub open spec fn is_digit(c: char) -> bool {
    '0' <= c <= '9'
}

/// The text has no character but digits.
pub open spec fn all_digits(s: Seq<char>) -> bool {
    forall|i: int| 0 <= i < s.len() ==> is_digit(#[trigger] s[i])
}

/// The number that a digit stands for.
pub open spec fn digit_value(c: char) -> nat {
    (c as int - '0' as int) as nat
}

/// The digit that stands for a number below ten.
pub open spec fn digit_char(d: nat) -> char {
    ('0' as int + d) as char
}

/// The number that a row of digits denotes.
pub open spec fn digits_value(s: Seq<char>) -> nat
    decreases s.len(),
{
    if s.len() == 0 {
        0
    } else {
        digits_value(s.drop_last()) * 10 + digit_value(s.last())
    }
}

/// The shortest row of digits that denotes a number.
pub open spec fn decimal(n: nat) -> Seq<char>
    decreases n,
{
    if n < 10 {
        seq![digit_char(n)]
    } else {
        decimal(n / 10).push(digit_char(n % 10))
    }
}

/// A text without the one plus sign that it may start with.
pub open spec fn without_plus(s: Seq<char>) -> Seq<char> {
    if s.len() > 0 && s[0] == '+' {
        s.skip(1)
    } else {
        s
    }
}

/// The number that a text denotes as a `usize`: an optional plus sign, then at least one
/// digit, and nothing else; `None` for any other text and for a number out of range.
pub open spec fn usize_value(s: Seq<char>) -> Option<usize> {
    let t = without_plus(s);
    if t.len() > 0 && all_digits(t) && digits_value(t) <= usize::MAX {
        Some(digits_value(t) as usize)
    } else {
        None
    }
}

/// A number never denotes less than one of the numbers that its leading digits denote.
proof fn lemma_leading_digits(s: Seq<char>, k: int)
    requires
        0 <= k <= s.len(),
    ensures
        digits_value(s.take(k)) <= digits_value(s),
    decreases s.len(),
{
    if k < s.len() {
        lemma_leading_digits(s.drop_last(), k);
        assert(s.drop_last().take(k) =~= s.take(k));
    } else {
        assert(s.take(k) =~= s);
    }
}

/// Reading the decimal notation of a number gives the number back.
pub proof fn decimal_denotes_its_number(n: nat)
    ensures
        decimal(n).len() > 0,
        all_digits(decimal(n)),
        digits_value(decimal(n)) == n,
    decreases n,
{
    if n < 10 {
        assert(decimal(n).drop_last() =~= Seq::<char>::empty());
        assert(digits_value(Seq::<char>::empty()) == 0);
    } else {
        decimal_denotes_its_number(n / 10);
        assert(decimal(n).drop_last() =~= decimal(n / 10));
    }
}

/// Every `usize` is read back from its decimal notation.
pub proof fn decimal_reads_back(n: usize)
    ensures
        usize_value(decimal(n as nat)) == Some(n),
{
    decimal_denotes_its_number(n as nat);
    assert(is_digit(decimal(n as nat)[0]));
}

/// One digit more makes the number ten times as large, and adds what the digit stands for.
pub proof fn digits_count_tenfold(s: Seq<char>, c: char)
    requires
        48 <= c as int <= 57,
    ensures
        digits_value(Seq::<char>::empty()) == 0,
        digits_value(s.push(c)) == 10 * digits_value(s) + (c as int - 48),
{
    assert(s.push(c).drop_last() =~= s);
}

/// Decimal notation has no needless zeros in front, and nothing but digits.
pub proof fn decimal_is_shortest(n: nat)
    ensures
        n < 10 ==> decimal(n).len() == 1,
        decimal(n).len() > 1 ==> decimal(n)[0] as int != 48,
        forall|i: int| 0 <= i < decimal(n).len() ==> 48 <= (#[trigger] decimal(n)[i]) as int <= 57,
    decreases n,
{
    if n >= 10 {
        decimal_is_shortest(n / 10);
        decimal_denotes_its_number(n / 10);
        let front = decimal(n / 10);
        assert(decimal(n)[0] == front[0]);
        if front.len() == 1 {
            assert(front.drop_last() =~= Seq::<char>::empty());
            digits_count_tenfold(Seq::<char>::empty(), front[0]);
            assert(Seq::<char>::empty().push(front[0]) =~= front);
        }
    }
}

/// A text is read as a number exactly if it is a row of digits, at least one, that may have a
/// plus sign in front, and denotes a number in range; it is read as that number.
pub proof fn digits_are_read_as_a_number(s: Seq<char>, n: usize)
    ensures
        usize_value(s) == Some(n) <==> exists|t: Seq<char>|
            {
                &&& s == t || s == seq!['+'] + t
                &&& t.len() > 0
                &&& forall|i: int| 0 <= i < t.len() ==> 48 <= (#[trigger] t[i]) as int <= 57
                &&& #[trigger] digits_value(t) == n
            },
{
    if usize_value(s) == Some(n) {
        let t = without_plus(s);
        assert(s =~= t || s =~= seq!['+'] + t);
        assert(forall|i: int| 0 <= i < t.len() ==> is_digit(#[trigger] t[i]));
        assert(digits_value(t) == n);
    }
    if exists|t: Seq<char>|
        {
            &&& s == t || s == seq!['+'] + t
            &&& t.len() > 0
            &&& forall|i: int| 0 <= i < t.len() ==> 48 <= (#[trigger] t[i]) as int <= 57
            &&& #[trigger] digits_value(t) == n
        } {
        let t = choose|t: Seq<char>|
            {
                &&& s == t || s == seq!['+'] + t
                &&& t.len() > 0
                &&& forall|i: int| 0 <= i < t.len() ==> 48 <= (#[trigger] t[i]) as int <= 57
                &&& #[trigger] digits_value(t) == n
            };
        assert(48 <= t[0] as int);
        if s != t {
            assert((seq!['+'] + t).skip(1) =~= t);
        }
        assert(without_plus(s) == t);
        assert(all_digits(t));
    }
}

/// Writes a number in decimal notation behind a text.
pub fn push_decimal(text: &mut String, n: u64)
    ensures
        final(text)@ == old(text)@ + decimal(n as nat),
    decreases n,
{
    if n >= 10 {
        push_decimal(text, n / 10);
    }
    let d: u8 = (n % 10) as u8;
    text.push((48u8 + d) as char);
}

/// Reads a `usize` from a text.
pub fn parse_usize(s: &str) -> (value: Option<usize>)
    ensures
        value == usize_value(s@),
{
    let chars = chars_of(s);
    let start: usize = if chars.len() > 0 && chars[0] == '+' { 1 } else { 0 };
    let ghost t = without_plus(s@);
    assert(t =~= chars@.skip(start as int));
    if start == chars.len() {
        return None;
    }
    let mut value: usize = 0;
    let mut i: usize = start;
    while i < chars.len()
        invariant
            start <= i <= chars@.len(),
            t == chars@.skip(start as int),
            all_digits(t.take(i - start)),
            value == digits_value(t.take(i - start)),
            t == without_plus(s@),
        decreases chars@.len() - i,
    {
        let c = chars[i];
        assert(t[i - start] == c);
        if !('0' <= c && c <= '9') {
            return None;
        }
        let d: usize = (c as u32 - 48) as usize;
        assert(t.take(i + 1 - start).drop_last() =~= t.take(i - start));
        assert(digits_value(t.take(i + 1 - start)) == value * 10 + d);
        proof {
            lemma_leading_digits(t, i + 1 - start);
        }
        let tens: usize = match value.checked_mul(10) {
            Some(tens) => tens,
            None => {
                return None;
            },
        };
        value = match tens.checked_add(d) {
            Some(sum) => sum,
            None => {
                return None;
            },
        };
        i += 1;
    }
    assert(t.take(i - start) =~= t);
    Some(value)
}

/// What is written behind a text is a row of digits that denotes the number, without needless
/// zeros, and the text before it stays.
pub proof fn written_number_stands_behind(text: &mut String, n: u64)
    requires
        call_ensures(push_decimal, (text, n), ()),
    ensures
        exists|t: Seq<char>|
            {
                &&& final(text)@ == #[trigger] (old(text)@ + t)
                &&& t.len() > 0
                &&& forall|i: int| 0 <= i < t.len() ==> 48 <= (#[trigger] t[i]) as int <= 57
                &&& t.len() > 1 ==> t[0] != '0'
                &&& digits_value(t) == n
            },
{
    decimal_is_shortest(n as nat);
    decimal_denotes_its_number(n as nat);
    assert(final(text)@ == old(text)@ + decimal(n as nat));
}

/// What is read from a text is the number that its digits denote, and nothing is read from any
/// other text than digits in range with at most a plus sign in front.
pub proof fn read_number_is_denoted(s: &str, value: Option<usize>, n: usize)
    requires
        call_ensures(parse_usize, (s,), value),
    ensures
        value == Some(n) <==> exists|t: Seq<char>|
            {
                &&& s@ == t || s@ == seq!['+'] + t
                &&& t.len() > 0
                &&& forall|i: int| 0 <= i < t.len() ==> 48 <= (#[trigger] t[i]) as int <= 57
                &&& #[trigger] digits_value(t) == n
            },
{
    digits_are_read_as_a_number(s@, n);
}

} // verus!
