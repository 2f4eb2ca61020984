//! The loops that the analyzer finds in a song, and the text in which it prints them: one
//! loop a line, with the start, the end, the note distance, the loudness difference and the
//! score in this order and a space between each two.

use vstd::prelude::*;
use vstd::utf8::decode_utf8;
use vstd::utf8::encode_utf8;
use vstd::utf8::valid_utf8;

use crate::error::UploadError;
use crate::numeral::digits_around_a_point_are_a_numeral;
use crate::numeral::is_float_notation;
use crate::numeral::is_numeral;
use crate::numeral::is_printable;
use crate::numeral::numeral;
use crate::numeral::numeral_is_printable;
use crate::numeral::numerals_spell_floats;
use crate::text::is_whitespace;
use crate::text::join_then_split;
use crate::text::joined;
use crate::text::pieces;
use crate::text::split;
use crate::text::texts;
use crate::text::trim;
use crate::text::trimmed;
use crate::text::trimmed_end;
use crate::text::trimmed_start;
use crate::text::trimming_undoes_padding;

verus! {

/// A place where a song can be looped: five numerals, each as it was printed.
#[derive(Debug)]
pub struct Loop {
    pub start: String,
    pub end: String,
    pub note_distance: String,
    pub loudness_difference: String,
    pub score: String,
}

impl View for Loop {
    type V = Seq<Seq<char>>;

    /// The five numerals in the order in which they are printed.
    open spec fn view(&self) -> Seq<Seq<char>> {
        seq![self.start@, self.end@, self.note_distance@, self.loudness_difference@, self.score@]
    }
}

/// At least five words, of which the first five are numerals.
pub open spec fn is_loop(words: Seq<Seq<char>>) -> bool {
    &&& words.len() >= 5
    &&& forall|i: int| 0 <= i < 5 ==> is_numeral(#[trigger] words[i])
}

/// What the analyzer prints, line by line and word by word.
pub open spec fn printed_words(out: Seq<char>) -> Seq<Seq<Seq<char>>> {
    pieces(trimmed(out), '\n').map_values(|line: Seq<char>| pieces(line, ' '))
}

/// The loops that rows of words describe; words behind the fifth do not matter.
pub open spec fn described(rows: Seq<Seq<Seq<char>>>) -> Seq<Seq<Seq<char>>> {
    rows.map_values(|words: Seq<Seq<char>>| words.take(5))
}

/// The loops in what the analyzer printed, or `None` if a line of it is no loop.
pub open spec fn loops_in(out: Seq<char>) -> Option<Seq<Seq<Seq<char>>>> {
    if forall|i: int| 0 <= i < printed_words(out).len() ==> is_loop(#[trigger] printed_words(out)[i]) {
        Some(described(printed_words(out)))
    } else {
        None
    }
}

/// The loops in the analyzer's output, or `None` if the analyzer failed or its output is no
/// list of loops.
pub open spec fn loops_in_output(stdout: Seq<u8>, success: bool) -> Option<Seq<Seq<Seq<char>>>> {
    if valid_utf8(stdout) && success {
        loops_in(decode_utf8(stdout))
    } else {
        None
    }
}

/// The numerals of loops.
pub open spec fn numerals(loops: Seq<Loop>) -> Seq<Seq<Seq<char>>> {
    loops.map_values(|l: Loop| l@)
}

/// Rows of words as the analyzer prints them: a line break, then the rows.
pub open spec fn printed(rows: Seq<Seq<Seq<char>>>) -> Seq<char> {
    seq!['\n'] + joined(rows.map_values(|words: Seq<Seq<char>>| joined(words, ' ')), '\n')
}

/// Words without whitespace, put together with spaces, neither start nor end with
/// whitespace, and no line breaks in them.
proof fn lemma_line(words: Seq<Seq<char>>)
    requires
        words.len() > 0,
        forall|i: int| 0 <= i < words.len() ==> is_numeral(#[trigger] words[i]),
    ensures
        joined(words, ' ').len() > 0,
        !is_whitespace(joined(words, ' ').first()),
        !is_whitespace(joined(words, ' ').last()),
        !joined(words, ' ').contains('\n'),
    decreases words.len(),
{
    let line = joined(words, ' ');
    let word = words.last();
    assert(is_numeral(words[words.len() - 1]));
    numeral_is_printable(word);
    assert(is_printable(word[0]) && is_printable(word.last()));
    if words.len() == 1 {
        assert(word == line);
    } else {
        let init = words.drop_last();
        assert forall|i: int| 0 <= i < init.len() implies is_numeral(#[trigger] init[i]) by {
            assert(init[i] == words[i]);
        }
        lemma_line(init);
        assert forall|i: int| 0 <= i < line.len() implies line[i] != '\n' by {
            let front = joined(init, ' ');
            if i < front.len() {
                assert(line[i] == front[i]);
            } else if i > front.len() {
                assert(line[i] == word[i - front.len() - 1]);
            }
        }
    }
}

/// Lines that neither start nor end with whitespace do neither when they are put together.
proof fn lemma_lines(lines: Seq<Seq<char>>)
    requires
        lines.len() > 0,
        forall|i: int|
            0 <= i < lines.len() ==> (#[trigger] lines[i]).len() > 0 && !is_whitespace(lines[i].first())
                && !is_whitespace(lines[i].last()),
    ensures
        joined(lines, '\n').len() > 0,
        !is_whitespace(joined(lines, '\n').first()),
        !is_whitespace(joined(lines, '\n').last()),
    decreases lines.len(),
{
    assert(lines[lines.len() - 1].len() > 0);
    if lines.len() > 1 {
        let init = lines.drop_last();
        assert forall|i: int| 0 <= i < init.len() implies (#[trigger] init[i]).len() > 0
            && !is_whitespace(init[i].first()) && !is_whitespace(init[i].last()) by {
            assert(init[i] == lines[i]);
        }
        lemma_lines(init);
    }
}

/// What is printed is read back: rows of five numerals each, printed as the analyzer does it,
/// are found again, every one and in their order.
pub proof fn printed_loops_read_back(rows: Seq<Seq<Seq<char>>>)
    requires
        rows.len() > 0,
        forall|i: int| 0 <= i < rows.len() ==> (#[trigger] rows[i]).len() == 5 && is_loop(rows[i]),
    ensures
        loops_in(printed(rows)) == Some(rows),
{
    let lines = rows.map_values(|words: Seq<Seq<char>>| joined(words, ' '));
    let body = joined(lines, '\n');
    assert forall|i: int| 0 <= i < lines.len() implies {
        &&& (#[trigger] lines[i]).len() > 0
        &&& !is_whitespace(lines[i].first())
        &&& !is_whitespace(lines[i].last())
        &&& !lines[i].contains('\n')
        &&& pieces(lines[i], ' ') == rows[i]
    } by {
        let words = rows[i];
        lemma_line(words);
        assert forall|j: int| 0 <= j < words.len() implies !(#[trigger] words[j]).contains(' ') by {
            numeral_is_printable(words[j]);
        }
        join_then_split(words, ' ');
    }
    lemma_lines(lines);
    join_then_split(lines, '\n');
    assert(printed(rows).skip(1) =~= body);
    assert(printed(rows).first() == '\n');
    assert(trimmed_start(body) == body);
    assert(trimmed_start(printed(rows)) == body);
    assert(trimmed_end(body) == body);
    assert(printed_words(printed(rows)) =~= rows);
    assert forall|i: int| 0 <= i < rows.len() implies described(rows)[i] == #[trigger] rows[i] by {
        assert(rows[i].take(5) =~= rows[i]);
    }
    assert(described(rows) =~= rows);
}

/// The numerals of a loop stand in the order in which they are printed.
pub proof fn loop_is_viewed_in_print_order(l: Loop)
    ensures
        l@.len() == 5,
        l@[0] == l.start@,
        l@[1] == l.end@,
        l@[2] == l.note_distance@,
        l@[3] == l.loudness_difference@,
        l@[4] == l.score@,
{
}

/// A line is a loop exactly if each of its first five words spells a floating-point number,
/// and there are five. How long the words are, and what follows them, plays no role.
pub proof fn five_floats_make_a_loop(words: Seq<Seq<char>>)
    ensures
        is_loop(words) <==> {
            &&& words.len() >= 5
            &&& is_float_notation(words[0])
            &&& is_float_notation(words[1])
            &&& is_float_notation(words[2])
            &&& is_float_notation(words[3])
            &&& is_float_notation(words[4])
        },
{
    numerals_spell_floats(words[0]);
    numerals_spell_floats(words[1]);
    numerals_spell_floats(words[2]);
    numerals_spell_floats(words[3]);
    numerals_spell_floats(words[4]);
}

/// The printed text is read line by line and word by word. Whatever whitespace stands around
/// it, there are loops exactly if every line starts with five words that each spell a
/// floating-point number. Then there is one loop for each line, in the order of the lines,
/// and it has the first five words of its line.
pub proof fn each_line_is_a_loop(before: Seq<char>, rows: Seq<Seq<Seq<char>>>, behind: Seq<char>)
    requires
        forall|k: int| 0 <= k < before.len() ==> is_whitespace(#[trigger] before[k]),
        forall|k: int| 0 <= k < behind.len() ==> is_whitespace(#[trigger] behind[k]),
        rows.len() > 0,
        forall|i: int| 0 <= i < rows.len() ==> (#[trigger] rows[i]).len() > 0,
        forall|i: int, j: int|
            0 <= i < rows.len() && 0 <= j < rows[i].len() ==> !(#[trigger] rows[i][j]).contains(' ')
                && !rows[i][j].contains('\n'),
        ({
            let body = joined(rows.map_values(|words: Seq<Seq<char>>| joined(words, ' ')), '\n');
            body.len() > 0 ==> !is_whitespace(body.first()) && !is_whitespace(body.last())
        }),
    ensures
        ({
            let body = joined(rows.map_values(|words: Seq<Seq<char>>| joined(words, ' ')), '\n');
            match loops_in(before + body + behind) {
                Some(found) => {
                    &&& found.len() == rows.len()
                    &&& forall|i: int|
                        0 <= i < rows.len() ==> (#[trigger] rows[i]).len() >= 5 && found[i].len() == 5
                    &&& forall|i: int, j: int|
                        0 <= i < rows.len() && 0 <= j < 5 ==> #[trigger] found[i][j] == rows[i][j]
                            && is_float_notation(found[i][j])
                },
                None => exists|i: int|
                    0 <= i < rows.len() && ((#[trigger] rows[i]).len() < 5 || exists|j: int|
                        0 <= j < 5 && !is_float_notation(#[trigger] rows[i][j])),
            }
        }),
{
    let lines = rows.map_values(|words: Seq<Seq<char>>| joined(words, ' '));
    let body = joined(lines, '\n');
    let out = before + body + behind;
    trimming_undoes_padding(before, body, behind);
    assert forall|i: int| 0 <= i < lines.len() implies !(#[trigger] lines[i]).contains('\n')
        && pieces(lines[i], ' ') == rows[i] by {
        lemma_no_line_break(rows[i]);
        join_then_split(rows[i], ' ');
    }
    join_then_split(lines, '\n');
    assert(printed_words(out) =~= rows);
    assert forall|i: int| 0 <= i < rows.len() implies is_loop(#[trigger] rows[i]) == (rows[i].len()
        >= 5 && forall|j: int| 0 <= j < 5 ==> is_float_notation(#[trigger] rows[i][j])) by {
        five_floats_make_a_loop(rows[i]);
        if is_loop(rows[i]) {
            assert forall|j: int| 0 <= j < 5 implies is_float_notation(#[trigger] rows[i][j]) by {
                assert(j == 0 || j == 1 || j == 2 || j == 3 || j == 4);
            }
        }
    }
    if forall|i: int| 0 <= i < rows.len() ==> is_loop(#[trigger] rows[i]) {
        let found = loops_in(out)->0;
        assert forall|i: int, j: int| 0 <= i < rows.len() && 0 <= j < 5 implies #[trigger] found[i][j]
            == rows[i][j] && is_float_notation(found[i][j]) by {
            assert(is_loop(rows[i]));
            assert(found[i] == rows[i].take(5));
            assert(is_float_notation(rows[i][j]));
        }
        assert forall|i: int| 0 <= i < rows.len() implies (#[trigger] rows[i]).len() >= 5
            && found[i].len() == 5 by {
            assert(is_loop(rows[i]));
        }
    } else {
        let i = choose|i: int| 0 <= i < rows.len() && !is_loop(#[trigger] rows[i]);
        if rows[i].len() >= 5 {
            let j = choose|j: int| 0 <= j < 5 && !is_float_notation(#[trigger] rows[i][j]);
            assert(!is_float_notation(rows[i][j]));
        }
    }
}

proof fn lemma_no_line_break(words: Seq<Seq<char>>)
    requires
        forall|j: int| 0 <= j < words.len() ==> !(#[trigger] words[j]).contains('\n'),
    ensures
        !joined(words, ' ').contains('\n'),
    decreases words.len(),
{
    let line = joined(words, ' ');
    if words.len() > 1 {
        let init = words.drop_last();
        assert forall|j: int| 0 <= j < init.len() implies !(#[trigger] init[j]).contains('\n') by {
            assert(init[j] == words[j]);
        }
        lemma_no_line_break(init);
        let front = joined(init, ' ');
        let word = words[words.len() - 1];
        assert(!word.contains('\n'));
        assert forall|i: int| 0 <= i < line.len() implies line[i] != '\n' by {
            if i < front.len() {
                assert(line[i] == front[i]);
                assert(front.contains(front[i]));
            } else if i > front.len() {
                assert(line[i] == word[i - front.len() - 1]);
                assert(word.contains(word[i - front.len() - 1]));
            }
        }
    }
}

/// Decimal fractions of any length are read back, five a line and as many lines as there are:
/// behind a line break, as the analyzer prints them.
pub proof fn printed_fractions_read_back(
    rows: Seq<Seq<Seq<char>>>,
    whole: Seq<Seq<Seq<char>>>,
    fraction: Seq<Seq<Seq<char>>>,
)
    requires
        rows.len() > 0,
        forall|i: int| 0 <= i < rows.len() ==> (#[trigger] rows[i]).len() == 5,
        forall|i: int, j: int|
            0 <= i < rows.len() && 0 <= j < 5 ==> {
                &&& #[trigger] rows[i][j] == whole[i][j] + seq!['.'] + fraction[i][j]
                &&& whole[i][j].len() > 0
                &&& fraction[i][j].len() > 0
                &&& forall|k: int|
                    0 <= k < whole[i][j].len() ==> '0' <= #[trigger] whole[i][j][k] <= '9'
                &&& forall|k: int|
                    0 <= k < fraction[i][j].len() ==> '0' <= #[trigger] fraction[i][j][k] <= '9'
            },
    ensures
        loops_in(
            seq!['\n'] + joined(
                rows.map_values(|words: Seq<Seq<char>>| joined(words, ' ')),
                '\n',
            ),
        ) == Some(rows),
{
    assert forall|i: int| 0 <= i < rows.len() implies (#[trigger] rows[i]).len() == 5 && is_loop(
        rows[i],
    ) by {
        assert forall|j: int| 0 <= j < 5 implies is_numeral(#[trigger] rows[i][j]) by {
            assert(rows[i][j] == whole[i][j] + seq!['.'] + fraction[i][j]);
            digits_around_a_point_are_a_numeral(whole[i][j], fraction[i][j]);
        }
    }
    printed_loops_read_back(rows);
}

/// What the analyzer prints is taken as UTF-8, and only if it ended well: of any text there
/// are the loops that are in it, and of bytes that are no text there are none.
pub proof fn output_is_read_as_text(text: Seq<char>, stdout: Seq<u8>)
    ensures
        loops_in_output(encode_utf8(text), true) == loops_in(text),
        loops_in_output(stdout, false) is None,
        !valid_utf8(stdout) ==> loops_in_output(stdout, true) is None,
{
    vstd::utf8::encode_utf8_valid_utf8(text);
    vstd::utf8::encode_utf8_decode_utf8(text);
}

impl Loop {
    /// Takes a loop from the words of a line, unless one of the five is missing or is no
    /// numeral.
    pub fn parse(elems: &Vec<String>) -> (found: Option<Loop>)
        ensures
            found is Some <==> is_loop(texts(elems@)),
            found matches Some(l) ==> l@ == texts(elems@).take(5),
            found matches Some(l) ==> {
                &&& l.start@ == elems@[0]@
                &&& l.end@ == elems@[1]@
                &&& l.note_distance@ == elems@[2]@
                &&& l.loudness_difference@ == elems@[3]@
                &&& l.score@ == elems@[4]@
            },
    {
        if elems.len() < 5 {
            return None;
        }
        let mut i: usize = 0;
        while i < 5
            invariant
                i <= 5 <= elems@.len(),
                forall|j: int| 0 <= j < i ==> is_numeral(#[trigger] texts(elems@)[j]),
            decreases 5 - i,
        {
            assert(texts(elems@)[i as int] == elems@[i as int]@);
            if !numeral(elems[i].as_str()) {
                return None;
            }
            i += 1;
        }
        let found = Loop {
            start: elems[0].clone(),
            end: elems[1].clone(),
            note_distance: elems[2].clone(),
            loudness_difference: elems[3].clone(),
            score: elems[4].clone(),
        };
        assert(found@ =~= texts(elems@).take(5));
        Some(found)
    }
}

/// Takes the loops from what the analyzer printed. One line that is no loop spoils all, an
/// empty one too.
pub fn parse_loops(out: &str) -> (loops: Result<Vec<Loop>, UploadError>)
    ensures
        match loops {
            Ok(found) => loops_in(out@) == Some(numerals(found@)),
            Err(e) => loops_in(out@) is None && e == UploadError::Internal,
        },
{
    let text = trim(out);
    let lines = split(text.as_str(), '\n');
    let ghost rows = printed_words(out@);
    let mut loops: Vec<Loop> = Vec::new();
    let mut i: usize = 0;
    assert(numerals(loops@) =~= described(rows.take(0)));
    while i < lines.len()
        invariant
            i <= lines@.len(),
            rows == printed_words(out@),
            texts(lines@) == pieces(trimmed(out@), '\n'),
            numerals(loops@) == described(rows.take(i as int)),
            forall|j: int| 0 <= j < i ==> is_loop(#[trigger] rows[j]),
        decreases lines@.len() - i,
    {
        assert(texts(lines@)[i as int] == lines@[i as int]@);
        let words = split(lines[i].as_str(), ' ');
        assert(texts(words@) == rows[i as int]);
        match Loop::parse(&words) {
            Some(found) => {
                let ghost before = loops@;
                loops.push(found);
                assert(numerals(loops@) =~= numerals(before).push(found@));
                assert(described(rows.take(i + 1)) =~= described(rows.take(i as int)).push(
                    rows[i as int].take(5),
                ));
            },
            None => {
                return Err(UploadError::Internal);
            },
        }
        i += 1;
    }
    assert(rows.take(i as int) =~= rows);
    Ok(loops)
}

/// `String::from_utf8`: the text that bytes encode in UTF-8, if they do.
#[verifier::external_body]
fn utf8_text(bytes: Vec<u8>) -> (text: Option<String>)
    ensures
        text is Some <==> valid_utf8(bytes@),
        text matches Some(t) ==> t@ == decode_utf8(bytes@),
{
    String::from_utf8(bytes).ok()
}

/// Takes the loops from the analyzer's output, if it is text and the analyzer ended well.
pub fn read_output(stdout: Vec<u8>, success: bool) -> (loops: Result<Vec<Loop>, UploadError>)
    ensures
        match loops {
            Ok(found) => loops_in_output(stdout@, success) == Some(numerals(found@)),
            Err(e) => loops_in_output(stdout@, success) is None && e == UploadError::Internal,
        },
{
    match utf8_text(stdout) {
        Some(out) => if success {
            parse_loops(out.as_str())
        } else {
            Err(UploadError::Internal)
        },
        None => Err(UploadError::Internal),
    }
}

/// Words are taken for a loop exactly if there are five that each spell a floating-point
/// number, and the first is its start, the second its end, and so on.
pub proof fn words_become_a_loop(elems: &Vec<String>, found: Option<Loop>)
    requires
        call_ensures(Loop::parse, (elems,), found),
    ensures
        found is Some <==> {
            &&& elems@.len() >= 5
            &&& is_float_notation(elems@[0]@)
            &&& is_float_notation(elems@[1]@)
            &&& is_float_notation(elems@[2]@)
            &&& is_float_notation(elems@[3]@)
            &&& is_float_notation(elems@[4]@)
        },
        found matches Some(l) ==> {
            &&& l.start@ == elems@[0]@
            &&& l.end@ == elems@[1]@
            &&& l.note_distance@ == elems@[2]@
            &&& l.loudness_difference@ == elems@[3]@
            &&& l.score@ == elems@[4]@
        },
{
    five_floats_make_a_loop(texts(elems@));
    if elems@.len() >= 5 {
        assert(texts(elems@)[0] == elems@[0]@);
        assert(texts(elems@)[1] == elems@[1]@);
        assert(texts(elems@)[2] == elems@[2]@);
        assert(texts(elems@)[3] == elems@[3]@);
        assert(texts(elems@)[4] == elems@[4]@);
    }
}

/// Of what the analyzer printed, every line becomes a loop with the numbers in it, in the order
/// of the lines, unless a line does not start with five words that each spell a floating-point
/// number: then there are no loops at all.
pub proof fn lines_become_loops(
    out: &str,
    result: Result<Vec<Loop>, UploadError>,
    before: Seq<char>,
    rows: Seq<Seq<Seq<char>>>,
    behind: Seq<char>,
)
    requires
        call_ensures(parse_loops, (out,), result),
        forall|k: int| 0 <= k < before.len() ==> is_whitespace(#[trigger] before[k]),
        forall|k: int| 0 <= k < behind.len() ==> is_whitespace(#[trigger] behind[k]),
        rows.len() > 0,
        forall|i: int| 0 <= i < rows.len() ==> (#[trigger] rows[i]).len() > 0,
        forall|i: int, j: int|
            0 <= i < rows.len() && 0 <= j < rows[i].len() ==> !(#[trigger] rows[i][j]).contains(' ')
                && !rows[i][j].contains('\n'),
        ({
            let body = joined(rows.map_values(|words: Seq<Seq<char>>| joined(words, ' ')), '\n');
            &&& body.len() > 0 ==> !is_whitespace(body.first()) && !is_whitespace(body.last())
            &&& out@ == before + body + behind
        }),
    ensures
        match result {
            Ok(loops) => {
                &&& loops@.len() == rows.len()
                &&& forall|i: int|
                    0 <= i < rows.len() ==> {
                        &&& rows[i].len() >= 5
                        &&& (#[trigger] loops@[i]).start@ == rows[i][0]
                        &&& loops@[i].end@ == rows[i][1]
                        &&& loops@[i].note_distance@ == rows[i][2]
                        &&& loops@[i].loudness_difference@ == rows[i][3]
                        &&& loops@[i].score@ == rows[i][4]
                        &&& is_float_notation(rows[i][0])
                        &&& is_float_notation(rows[i][1])
                        &&& is_float_notation(rows[i][2])
                        &&& is_float_notation(rows[i][3])
                        &&& is_float_notation(rows[i][4])
                    }
            },
            Err(e) => e is Internal && exists|i: int|
                0 <= i < rows.len() && ((#[trigger] rows[i]).len() < 5 || exists|j: int|
                    0 <= j < 5 && !is_float_notation(#[trigger] rows[i][j])),
        },
{
    each_line_is_a_loop(before, rows, behind);
    if let Ok(loops) = result {
        let found = numerals(loops@);
        assert(loops_in(out@) == Some(found));
        assert forall|i: int| 0 <= i < rows.len() implies {
            &&& rows[i].len() >= 5
            &&& (#[trigger] loops@[i]).start@ == rows[i][0]
            &&& loops@[i].end@ == rows[i][1]
            &&& loops@[i].note_distance@ == rows[i][2]
            &&& loops@[i].loudness_difference@ == rows[i][3]
            &&& loops@[i].score@ == rows[i][4]
            &&& is_float_notation(rows[i][0])
            &&& is_float_notation(rows[i][1])
            &&& is_float_notation(rows[i][2])
            &&& is_float_notation(rows[i][3])
            &&& is_float_notation(rows[i][4])
        } by {
            loop_is_viewed_in_print_order(loops@[i]);
            assert(found[i] == loops@[i]@);
            assert(rows[i].len() >= 5);
            assert(found[i][0] == rows[i][0]);
            assert(found[i][1] == rows[i][1]);
            assert(found[i][2] == rows[i][2]);
            assert(found[i][3] == rows[i][3]);
            assert(found[i][4] == rows[i][4]);
        }
    }
}

/// The loops are read from the output of an analyzer that ended well if it is text in UTF-8, as
/// they are from the text; there are none otherwise.
pub proof fn output_is_read_like_its_text(
    stdout: Vec<u8>,
    success: bool,
    result: Result<Vec<Loop>, UploadError>,
    text: &str,
    from_text: Result<Vec<Loop>, UploadError>,
)
    requires
        call_ensures(read_output, (stdout, success), result),
        call_ensures(parse_loops, (text,), from_text),
    ensures
        !success || !valid_utf8(stdout@) ==> result == Err::<Vec<Loop>, UploadError>(
            UploadError::Internal,
        ),
        success && stdout@ == encode_utf8(text@) ==> match (result, from_text) {
            (Ok(a), Ok(b)) => numerals(a@) == numerals(b@),
            (Err(a), Err(b)) => a == b,
            _ => false,
        },
{
    output_is_read_as_text(text@, stdout@);
}

} // verus!
