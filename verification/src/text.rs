//! Texts: trimming, splitting and joining.

use vstd::prelude::*;

verus! {

/// `String::push`: the character goes behind the text that is there.
pub assume_specification[ String::push ](text: &mut String, c: char)
    ensures
        final(text)@ == old(text)@.push(c),
;

/// The characters of a text, one by one.
pub fn chars_of(s: &str) -> (chars: Vec<char>)
    ensures
        chars@ == s@,
{
    let mut chars: Vec<char> = Vec::new();
    for c in it: s.chars()
        invariant
            it.seq() == s@,
            chars@ == s@.take(it.index() as int),
    {
        chars.push(c);
    }
    chars
}

/// The characters of Unicode's `White_Space` property.
pub open spec fn is_whitespace(c: char) -> bool {
    ||| 0x09 <= c as u32 <= 0x0d
    ||| c as u32 == 0x20
    ||| c as u32 == 0x85
    ||| c as u32 == 0xa0
    ||| c as u32 == 0x1680
    ||| 0x2000 <= c as u32 <= 0x200a
    ||| c as u32 == 0x2028
    ||| c as u32 == 0x2029
    ||| c as u32 == 0x202f
    ||| c as u32 == 0x205f
    ||| c as u32 == 0x3000
}

/// A text without the whitespace that it starts with.
pub open spec fn trimmed_start(s: Seq<char>) -> Seq<char>
    decreases s.len(),
{
    if s.len() > 0 && is_whitespace(s.first()) {
        trimmed_start(s.skip(1))
    } else {
        s
    }
}

/// A text without the whitespace that it ends with.
pub open spec fn trimmed_end(s: Seq<char>) -> Seq<char>
    decreases s.len(),
{
    if s.len() > 0 && is_whitespace(s.last()) {
        trimmed_end(s.drop_last())
    } else {
        s
    }
}

/// A text without the whitespace around it.
pub open spec fn trimmed(s: Seq<char>) -> Seq<char> {
    trimmed_end(trimmed_start(s))
}

/// The pieces between the separators of a text: one more than it has separators.
pub open spec fn pieces(s: Seq<char>, sep: char) -> Seq<Seq<char>>
    decreases s.len(),
{
    if s.len() == 0 {
        seq![Seq::<char>::empty()]
    } else {
        let before = pieces(s.drop_last(), sep);
        if s.last() == sep {
            before.push(Seq::<char>::empty())
        } else {
            before.drop_last().push(before.last().push(s.last()))
        }
    }
}

/// Texts put together with a separator between each two.
pub open spec fn joined(parts: Seq<Seq<char>>, sep: char) -> Seq<char>
    decreases parts.len(),
{
    if parts.len() == 0 {
        Seq::<char>::empty()
    } else if parts.len() == 1 {
        parts[0]
    } else {
        joined(parts.drop_last(), sep).push(sep) + parts.last()
    }
}

/// What a list of strings holds.
pub open spec fn texts(strings: Seq<String>) -> Seq<Seq<char>> {
    strings.map_values(|s: String| s@)
}

/// Splitting loses nothing: the pieces, put together again, are the text, and the
/// separator is in none of them.
pub proof fn split_then_join(s: Seq<char>, sep: char)
    ensures
        pieces(s, sep).len() > 0,
        joined(pieces(s, sep), sep) == s,
        forall|i: int| 0 <= i < pieces(s, sep).len() ==> !(#[trigger] pieces(s, sep)[i]).contains(sep),
    decreases s.len(),
{
    let all = pieces(s, sep);
    if s.len() > 0 {
        let init = s.drop_last();
        split_then_join(init, sep);
        let before = pieces(init, sep);
        assert(s =~= init.push(s.last()));
        if s.last() == sep {
            assert(all.drop_last() =~= before);
            assert(joined(all, sep) =~= s);
        } else {
            assert(all.drop_last() =~= before.drop_last());
            assert(joined(all, sep) =~= s);
            assert forall|i: int| 0 <= i < all.len() implies !(#[trigger] all[i]).contains(sep) by {
                if i < all.len() - 1 {
                    assert(all[i] == before[i]);
                } else {
                    assert(all[i] == before.last().push(s.last()));
                    assert(!before[before.len() - 1].contains(sep));
                    if all[i].contains(sep) {
                        let k = choose|k: int| 0 <= k < all[i].len() && all[i][k] == sep;
                        assert(before.last()[k] == sep);
                    }
                }
            }
        }
    }
}

proof fn lemma_split_behind_separator(front: Seq<char>, sep: char, part: Seq<char>)
    requires
        !part.contains(sep),
    ensures
        pieces(front.push(sep) + part, sep) == pieces(front, sep).push(part),
    decreases part.len(),
{
    let whole = front.push(sep) + part;
    if part.len() == 0 {
        assert(whole =~= front.push(sep));
        assert(whole.drop_last() =~= front);
        assert(part =~= Seq::<char>::empty());
    } else {
        assert(part.contains(part.last()));
        assert forall|i: int| 0 <= i < part.drop_last().len() implies part.drop_last()[i] != sep by {
            assert(part.contains(part[i]));
        }
        lemma_split_behind_separator(front, sep, part.drop_last());
        assert(whole.drop_last() =~= front.push(sep) + part.drop_last());
        assert(pieces(whole, sep) =~= pieces(front, sep).push(part)) by {
            assert(part.drop_last().push(part.last()) =~= part);
        }
    }
}

proof fn lemma_split_without_separator(part: Seq<char>, sep: char)
    requires
        !part.contains(sep),
    ensures
        pieces(part, sep) == seq![part],
    decreases part.len(),
{
    if part.len() == 0 {
        assert(part =~= Seq::<char>::empty());
    } else {
        assert(part.contains(part.last()));
        assert forall|i: int| 0 <= i < part.drop_last().len() implies part.drop_last()[i] != sep by {
            assert(part.contains(part[i]));
        }
        lemma_split_without_separator(part.drop_last(), sep);
        assert(part.drop_last().push(part.last()) =~= part);
        assert(pieces(part, sep) =~= seq![part]);
    }
}

/// Texts that do not hold the separator come back from splitting what joins them.
pub proof fn join_then_split(parts: Seq<Seq<char>>, sep: char)
    requires
        parts.len() > 0,
        forall|i: int| 0 <= i < parts.len() ==> !(#[trigger] parts[i]).contains(sep),
    ensures
        pieces(joined(parts, sep), sep) == parts,
    decreases parts.len(),
{
    if parts.len() == 1 {
        lemma_split_without_separator(parts[0], sep);
        assert(parts =~= seq![parts[0]]);
    } else {
        let init = parts.drop_last();
        assert forall|i: int| 0 <= i < init.len() implies !(#[trigger] init[i]).contains(sep) by {
            assert(init[i] == parts[i]);
        }
        join_then_split(init, sep);
        assert(!parts[parts.len() - 1].contains(sep));
        lemma_split_behind_separator(joined(init, sep), sep, parts.last());
        assert(init.push(parts.last()) =~= parts);
    }
}

/// A separator parts a text: the pieces of what stands before it come first, then the pieces
/// of what stands behind it.
pub proof fn separator_parts_a_text(before: Seq<char>, behind: Seq<char>, sep: char)
    ensures
        pieces(before + seq![sep] + behind, sep) == pieces(before, sep) + pieces(behind, sep),
    decreases behind.len(),
{
    let whole = before + seq![sep] + behind;
    if behind.len() == 0 {
        assert(whole.drop_last() =~= before);
        assert(pieces(whole, sep) =~= pieces(before, sep) + pieces(behind, sep));
    } else {
        let init = behind.drop_last();
        separator_parts_a_text(before, init, sep);
        split_then_join(init, sep);
        assert(whole.drop_last() =~= before + seq![sep] + init);
        assert(pieces(whole, sep) =~= pieces(before, sep) + pieces(behind, sep));
    }
}

/// A text without the separator is a piece by itself.
pub proof fn text_without_separator_is_one_piece(part: Seq<char>, sep: char)
    requires
        !part.contains(sep),
    ensures
        pieces(part, sep) == seq![part],
{
    lemma_split_without_separator(part, sep);
}

/// One text more is put behind the others, with a separator before it unless it is the first.
pub proof fn joining_one_text_more(parts: Seq<Seq<char>>, part: Seq<char>, sep: char)
    ensures
        joined(seq![part], sep) == part,
        parts.len() > 0 ==> joined(parts.push(part), sep) == joined(parts, sep) + seq![sep] + part,
{
    assert(parts.push(part).drop_last() =~= parts);
    if parts.len() > 0 {
        assert(joined(parts.push(part), sep) =~= joined(parts, sep) + seq![sep] + part);
    }
}

/// Whitespace is what Unicode counts as such: these characters and no others.
pub proof fn whitespace_is_unicode_whitespace(c: char)
    ensures
        is_whitespace(c) <==> seq![
            0x0009int, 0x000a, 0x000b, 0x000c, 0x000d, 0x0020, 0x0085, 0x00a0, 0x1680, 0x2000,
            0x2001, 0x2002, 0x2003, 0x2004, 0x2005, 0x2006, 0x2007, 0x2008, 0x2009, 0x200a,
            0x2028, 0x2029, 0x202f, 0x205f, 0x3000,
        ].contains(c as int),
{
    let all = seq![
        0x0009int, 0x000a, 0x000b, 0x000c, 0x000d, 0x0020, 0x0085, 0x00a0, 0x1680, 0x2000,
        0x2001, 0x2002, 0x2003, 0x2004, 0x2005, 0x2006, 0x2007, 0x2008, 0x2009, 0x200a,
        0x2028, 0x2029, 0x202f, 0x205f, 0x3000,
    ];
    let u = c as int;
    if is_whitespace(c) {
        let k = if u <= 0x0d {
            u - 9
        } else if u == 0x20 {
            5
        } else if u == 0x85 {
            6
        } else if u == 0xa0 {
            7
        } else if u == 0x1680 {
            8
        } else if u <= 0x200a {
            u - 0x2000 + 9
        } else if u == 0x2028 {
            20
        } else if u == 0x2029 {
            21
        } else if u == 0x202f {
            22
        } else if u == 0x205f {
            23
        } else {
            24
        };
        assert(all[k] == u);
    }
}

proof fn lemma_trimmed_start(s: Seq<char>) -> (i: int)
    ensures
        0 <= i <= s.len(),
        trimmed_start(s) == s.skip(i),
        forall|k: int| 0 <= k < i ==> is_whitespace(#[trigger] s[k]),
        i < s.len() ==> !is_whitespace(s[i]),
    decreases s.len(),
{
    if s.len() > 0 && is_whitespace(s.first()) {
        let i = lemma_trimmed_start(s.skip(1)) + 1;
        assert(s.skip(1).skip(i - 1) =~= s.skip(i));
        assert forall|k: int| 0 <= k < i implies is_whitespace(#[trigger] s[k]) by {
            if k > 0 {
                assert(s.skip(1)[k - 1] == s[k]);
            }
        }
        i
    } else {
        assert(s.skip(0) =~= s);
        0
    }
}

proof fn lemma_trimmed_end(s: Seq<char>) -> (j: int)
    ensures
        0 <= j <= s.len(),
        trimmed_end(s) == s.take(j),
        forall|k: int| j <= k < s.len() ==> is_whitespace(#[trigger] s[k]),
        j > 0 ==> !is_whitespace(s[j - 1]),
    decreases s.len(),
{
    if s.len() > 0 && is_whitespace(s.last()) {
        let j = lemma_trimmed_end(s.drop_last());
        assert(s.drop_last().take(j) =~= s.take(j));
        assert forall|k: int| j <= k < s.len() implies is_whitespace(#[trigger] s[k]) by {
            if k < s.len() - 1 {
                assert(s.drop_last()[k] == s[k]);
            }
        }
        j
    } else {
        assert(s.take(s.len() as int) =~= s);
        s.len() as int
    }
}

/// Trimming takes whitespace only, and all of it at both ends: what is left is a part of the
/// text, with nothing but whitespace before and behind it, and itself neither starts nor ends
/// with any.
pub proof fn trimming_takes_all_whitespace_around(s: Seq<char>)
    ensures
        exists|i: int, j: int|
            {
                &&& 0 <= i <= j <= s.len()
                &&& trimmed(s) == #[trigger] s.subrange(i, j)
                &&& forall|k: int|
                    0 <= k < i || j <= k < s.len() ==> is_whitespace(#[trigger] s[k])
                &&& i < j ==> !is_whitespace(s[i]) && !is_whitespace(s[j - 1])
            },
{
    let i = lemma_trimmed_start(s);
    let t = s.skip(i);
    let n = lemma_trimmed_end(t);
    let j = i + n;
    assert(t.take(n) =~= s.subrange(i, j));
    assert forall|k: int| 0 <= k < i || j <= k < s.len() implies is_whitespace(
        #[trigger] s[k],
    ) by {
        if k >= j {
            assert(t[k - i] == s[k]);
        }
    }
    if i < j {
        assert(t[n - 1] == s[j - 1]);
    }
}

/// Whatever whitespace stands around a text that neither starts nor ends with any, trimming
/// gives the text.
pub proof fn trimming_undoes_padding(before: Seq<char>, s: Seq<char>, behind: Seq<char>)
    requires
        forall|k: int| 0 <= k < before.len() ==> is_whitespace(#[trigger] before[k]),
        forall|k: int| 0 <= k < behind.len() ==> is_whitespace(#[trigger] behind[k]),
        s.len() > 0 ==> !is_whitespace(s.first()) && !is_whitespace(s.last()),
    ensures
        trimmed(before + s + behind) == s,
{
    let whole = before + s + behind;
    trimming_takes_all_whitespace_around(whole);
    let (i, j) = choose|i: int, j: int|
        {
            &&& 0 <= i <= j <= whole.len()
            &&& trimmed(whole) == #[trigger] whole.subrange(i, j)
            &&& forall|k: int|
                0 <= k < i || j <= k < whole.len() ==> is_whitespace(#[trigger] whole[k])
            &&& i < j ==> !is_whitespace(whole[i]) && !is_whitespace(whole[j - 1])
        };
    let from = before.len() as int;
    let to = from + s.len();
    assert forall|k: int| 0 <= k < from implies is_whitespace(#[trigger] whole[k]) by {
        assert(whole[k] == before[k]);
    }
    assert forall|k: int| to <= k < whole.len() implies is_whitespace(#[trigger] whole[k]) by {
        assert(whole[k] == behind[k - to]);
    }
    if s.len() > 0 {
        assert(whole[from] == s.first());
        assert(whole[to - 1] == s.last());
    }
    assert(whole.subrange(i, j) =~= s);
}

/// The text made of a range of characters.
pub(crate) fn text_of(chars: &Vec<char>, from: usize, to: usize) -> (text: String)
    requires
        from <= to <= chars@.len(),
    ensures
        text@ == chars@.subrange(from as int, to as int),
{
    let mut text = String::new();
    let mut i: usize = from;
    while i < to
        invariant
            from <= i <= to <= chars@.len(),
            text@ == chars@.subrange(from as int, i as int),
        decreases to - i,
    {
        text.push(chars[i]);
        i += 1;
    }
    text
}

/// Tells whether a character is whitespace.
pub fn whitespace(c: char) -> (yes: bool)
    ensures
        yes == is_whitespace(c),
{
    let u: u32 = c as u32;
    (0x09 <= u && u <= 0x0d) || u == 0x20 || u == 0x85 || u == 0xa0 || u == 0x1680 || (0x2000 <= u
        && u <= 0x200a) || u == 0x2028 || u == 0x2029 || u == 0x202f || u == 0x205f || u == 0x3000
}

/// Cuts the whitespace off both ends of a text.
pub fn trim(s: &str) -> (text: String)
    ensures
        text@ == trimmed(s@),
{
    let chars = chars_of(s);
    let mut from: usize = 0;
    assert(chars@.skip(0) =~= chars@);
    while from < chars.len() && whitespace(chars[from])
        invariant
            from <= chars@.len(),
            trimmed_start(chars@.skip(from as int)) == trimmed_start(chars@),
        decreases chars@.len() - from,
    {
        assert(chars@.skip(from as int).skip(1) =~= chars@.skip(from + 1));
        from += 1;
    }
    let mut to: usize = chars.len();
    assert(chars@.subrange(from as int, to as int) =~= chars@.skip(from as int));
    while to > from && whitespace(chars[to - 1])
        invariant
            from <= to <= chars@.len(),
            trimmed_end(chars@.subrange(from as int, to as int)) == trimmed(chars@),
        decreases to,
    {
        assert(chars@.subrange(from as int, to as int).drop_last() =~= chars@.subrange(
            from as int,
            to - 1,
        ));
        to -= 1;
    }
    text_of(&chars, from, to)
}

/// Splits a text at every separator.
pub fn split(s: &str, sep: char) -> (parts: Vec<String>)
    ensures
        texts(parts@) == pieces(s@, sep),
{
    let chars = chars_of(s);
    let mut parts: Vec<String> = Vec::new();
    let mut part = String::new();
    let mut i: usize = 0;
    assert(texts(parts@).push(part@) =~= pieces(chars@.take(0), sep));
    while i < chars.len()
        invariant
            i <= chars@.len(),
            texts(parts@).push(part@) == pieces(chars@.take(i as int), sep),
        decreases chars@.len() - i,
    {
        let c = chars[i];
        let ghost before = texts(parts@).push(part@);
        assert(chars@.take(i + 1).drop_last() =~= chars@.take(i as int));
        if c == sep {
            parts.push(part);
            part = String::new();
            assert(texts(parts@) =~= before);
        } else {
            part.push(c);
            assert(before.drop_last() =~= texts(parts@));
        }
        assert(texts(parts@).push(part@) =~= pieces(chars@.take(i + 1), sep));
        i += 1;
    }
    assert(chars@.take(i as int) =~= s@);
    let ghost before = texts(parts@).push(part@);
    parts.push(part);
    assert(texts(parts@) =~= before);
    parts
}

/// A text falls apart into its characters, and is trimmed of all whitespace around it and of
/// nothing else.
pub proof fn trimmed_text_is_the_inner_part(s: &str, chars: Vec<char>, text: String)
    requires
        call_ensures(chars_of, (s,), chars),
        call_ensures(trim, (s,), text),
    ensures
        chars@ == s@,
        exists|i: int, j: int|
            {
                &&& 0 <= i <= j <= s@.len()
                &&& text@ == #[trigger] s@.subrange(i, j)
                &&& forall|k: int|
                    0 <= k < i || j <= k < s@.len() ==> is_whitespace(#[trigger] s@[k])
                &&& i < j ==> !is_whitespace(s@[i]) && !is_whitespace(s@[j - 1])
            },
{
    trimming_takes_all_whitespace_around(s@);
}

/// A text is split at every separator: the parts have none, and with one between each two they
/// make up the text.
pub proof fn split_text_is_whole(s: &str, sep: char, parts: Vec<String>)
    requires
        call_ensures(split, (s, sep), parts),
    ensures
        parts@.len() > 0,
        forall|i: int| 0 <= i < parts@.len() ==> !(#[trigger] parts@[i])@.contains(sep),
        joined(parts@.map_values(|part: String| part@), sep) == s@,
{
    split_then_join(s@, sep);
    let all = parts@.map_values(|part: String| part@);
    assert(all =~= texts(parts@));
    assert forall|i: int| 0 <= i < parts@.len() implies !(#[trigger] parts@[i])@.contains(sep) by {
        assert(texts(parts@)[i] == parts@[i]@);
    }
}

} // verus!
