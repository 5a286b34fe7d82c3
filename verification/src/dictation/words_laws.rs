//! Which words stay of what the server answers, spelled out.
use vstd::prelude::*;

use crate::dictation::whisper::{alphabetic, cleaned, lowercase, said, said_lines};
use crate::dictation::whisper_laws::law_lines_are_cleaned_each_for_itself;
use crate::text::{
    contents, lines_of, spaced, trimmed, trimmed_end, trimmed_start, white_space,
};

verus! {

/// The white space of Unicode, by code point.
pub proof fn law_white_space_is_unicodes(c: char)
    ensures
        white_space(c) <==> {
            let point = c as u32;
            ||| point == 0x09 || point == 0x0a || point == 0x0b || point == 0x0c || point == 0x0d
            ||| point == 0x20 || point == 0x85 || point == 0xa0 || point == 0x1680
            ||| 0x2000 <= point <= 0x200a
            ||| point == 0x2028 || point == 0x2029 || point == 0x202f || point == 0x205f
            ||| point == 0x3000
        },
{
}

proof fn lemma_cut_start(text: Seq<char>) -> (a: int)
    ensures
        0 <= a <= text.len(),
        trimmed_start(text) == text.skip(a),
        forall|i: int| 0 <= i < a ==> white_space(#[trigger] text[i]),
        a < text.len() ==> !white_space(text[a]),
    decreases text.len(),
{
    if text.len() > 0 && white_space(text.first()) {
        let rest = text.drop_first();
        let a = lemma_cut_start(rest);
        assert(text.skip(a + 1) =~= rest.skip(a));
        assert forall|i: int| 0 <= i < a + 1 implies white_space(#[trigger] text[i]) by {
            if i > 0 {
                assert(text[i] == rest[i - 1]);
            }
        }
        a + 1
    } else {
        assert(text.skip(0) =~= text);
        0
    }
}

proof fn lemma_cut_end(text: Seq<char>) -> (b: int)
    ensures
        0 <= b <= text.len(),
        trimmed_end(text) == text.take(b),
        forall|i: int| b <= i < text.len() ==> white_space(#[trigger] text[i]),
        0 < b ==> !white_space(text[b - 1]),
    decreases text.len(),
{
    if text.len() > 0 && white_space(text.last()) {
        let rest = text.drop_last();
        let b = lemma_cut_end(rest);
        assert(text.take(b) =~= rest.take(b));
        assert forall|i: int| b <= i < text.len() implies white_space(#[trigger] text[i]) by {
            if i < rest.len() {
                assert(text[i] == rest[i]);
            }
        }
        b
    } else {
        assert(text.take(text.len() as int) =~= text);
        text.len() as int
    }
}

/// Trimming cuts off white space and nothing else, and all that there is at either
/// end.
pub proof fn law_trimming_cuts_off_white_space(text: Seq<char>)
    ensures
        exists|a: int, b: int|
            {
                &&& 0 <= a <= b <= text.len()
                &&& trimmed(text) == #[trigger] text.subrange(a, b)
                &&& forall|i: int| 0 <= i < a ==> white_space(#[trigger] text[i])
                &&& forall|i: int| b <= i < text.len() ==> white_space(#[trigger] text[i])
                &&& a < b ==> !white_space(text[a]) && !white_space(text[b - 1])
            },
{
    let a = lemma_cut_start(text);
    let start = text.skip(a);
    let b = lemma_cut_end(start);
    assert(text.subrange(a, a + b) =~= start.take(b));
    assert forall|i: int| a + b <= i < text.len() implies white_space(#[trigger] text[i]) by {
        assert(text[i] == start[i - a]);
    }
    if 0 < b {
        assert(text[a + b - 1] == start[b - 1]);
    }
    assert(trimmed(text) == text.subrange(a, a + b));
}

/// A text without white space at its ends stays as it is.
pub proof fn law_what_is_trimmed_stays(text: Seq<char>)
    requires
        text.len() == 0 || !white_space(text.first()) && !white_space(text.last()),
    ensures
        trimmed(text) == text,
{
}

/// Some lines, with a line feed between two of them.
pub open spec fn with_line_feeds(lines: Seq<Seq<char>>) -> Seq<char>
    decreases lines.len(),
{
    if lines.len() <= 1 {
        lines[0]
    } else {
        with_line_feeds(lines.drop_last()).push('\n') + lines.last()
    }
}

proof fn lemma_with_line_feeds(lines: Seq<Seq<char>>, c: char)
    requires
        lines.len() > 0,
    ensures
        with_line_feeds(lines.drop_last().push(lines.last().push(c))) == with_line_feeds(lines).push(
            c,
        ),
{
    let longer = lines.drop_last().push(lines.last().push(c));
    if lines.len() > 1 {
        assert(longer.drop_last() =~= lines.drop_last());
        assert(with_line_feeds(longer) =~= with_line_feeds(lines).push(c));
    }
}

/// A text is its lines with a line feed between two of them, and no line has one in
/// it.
pub proof fn law_a_text_is_its_lines(text: Seq<char>)
    ensures
        lines_of(text).len() > 0,
        with_line_feeds(lines_of(text)) == text,
        forall|i: int|
            0 <= i < lines_of(text).len() ==> !(#[trigger] lines_of(text)[i]).contains('\n'),
    decreases text.len(),
{
    if text.len() > 0 {
        let earlier = lines_of(text.drop_last());
        law_a_text_is_its_lines(text.drop_last());
        let lines = lines_of(text);
        if text.last() == '\n' {
            assert(lines.drop_last() =~= earlier);
            assert(with_line_feeds(lines) =~= text);
        } else {
            lemma_with_line_feeds(earlier, text.last());
            assert(text.drop_last().push(text.last()) =~= text);
        }
        assert forall|i: int| 0 <= i < lines.len() implies !(#[trigger] lines[i]).contains(
            '\n',
        ) by {
            if i < earlier.len() - 1 || i < earlier.len() && text.last() == '\n' {
                assert(lines[i] == earlier[i]);
            } else if text.last() != '\n' {
                let last = earlier[earlier.len() - 1];
                assert forall|j: int| 0 <= j < lines[i].len() implies lines[i][j] != '\n' by {
                    if j < last.len() {
                        assert(last.contains(last[j]));
                    }
                }
            }
        }
    } else {
        assert(with_line_feeds(lines_of(text)) =~= text);
    }
}

proof fn lemma_single_line(line: Seq<char>)
    requires
        !line.contains('\n'),
    ensures
        lines_of(line) == seq![line],
    decreases line.len(),
{
    if line.len() > 0 {
        let earlier = line.drop_last();
        assert forall|i: int| 0 <= i < earlier.len() implies earlier[i] != '\n' by {
            assert(line.contains(line[i]));
        }
        lemma_single_line(earlier);
        assert(line.contains(line.last()));
        assert(earlier.push(line.last()) =~= line);
    } else {
        assert(line =~= Seq::empty());
    }
    assert(lines_of(line) =~= seq![line]);
}

/// One line comes out trimmed, and whole, if there is a letter in it and it is, but
/// for its case, none of the nine phrases that stand for silence. Otherwise nothing
/// comes out.
pub proof fn law_a_line_stays_unless_nobody_said_it(line: Seq<char>)
    requires
        !line.contains('\n'),
    ensures
        ({
            let words = trimmed(line);
            let lowered = lowercase(words);
            let letter = exists|i: int| 0 <= i < words.len() && alphabetic(#[trigger] words[i]);
            let stock = lowered == "thank you."@ || lowered == "thank you"@ || lowered
                == "thanks for watching."@ || lowered == "thanks for watching"@ || lowered
                == "okay."@ || lowered == "you"@ || lowered == "[blank_audio]"@ || lowered
                == "(blank_audio)"@ || lowered == "."@;
            cleaned(line) == (if letter && !stock {
                words
            } else {
                Seq::empty()
            })
        }),
{
    let words = trimmed(line);
    lemma_single_line(line);
    let is_said = |one: Seq<char>| said(one);
    let inner = seq![line].map_values(|one: Seq<char>| trimmed(one));
    assert(inner =~= seq![words]);
    assert(Seq::<Seq<char>>::empty().push(words) =~= seq![words]);
    Seq::<Seq<char>>::empty().lemma_filter_push(words, is_said);
    reveal(Seq::filter);
    assert(Seq::<Seq<char>>::empty().filter(is_said) =~= Seq::empty());
    if said(words) {
        assert(said_lines(lines_of(line)) =~= seq![words]);
    } else {
        assert(said_lines(lines_of(line)) =~= Seq::empty());
    }
}

/// Nothing is made up, and nothing is lost between the lines: of a text that ends in
/// a further line, what stays is what stayed without that line, and what stays of the
/// line, with a space between where both are there.
pub proof fn law_a_further_line_adds_its_words(text: Seq<char>, line: Seq<char>)
    requires
        !line.contains('\n'),
    ensures
        ({
            let before = cleaned(text);
            let words = cleaned(line);
            let after = cleaned(text + seq!['\n'] + line);
            &&& after.len() == before.len() + words.len() + (if before.len() > 0 && words.len()
                > 0 {
                1int
            } else {
                0int
            })
            &&& after.take(before.len() as int) == before
            &&& after.skip(after.len() - words.len()) == words
            &&& before.len() > 0 && words.len() > 0 ==> after[before.len() as int] == ' '
        }),
{
    reveal_strlit(" ");
    law_lines_are_cleaned_each_for_itself(text, line);
    assert(text + seq!['\n'] + line =~= text.push('\n') + line);
    let before = cleaned(text);
    let words = cleaned(line);
    let after = cleaned(text + seq!['\n'] + line);
    assert(after.take(before.len() as int) =~= before);
    assert(after.skip(after.len() - words.len()) =~= words);
}

/// Texts are joined with one space between two of them.
pub proof fn law_texts_are_joined_with_spaces(texts: Seq<Seq<char>>, more: Seq<char>)
    ensures
        spaced(Seq::empty()).len() == 0,
        spaced(seq![more]) == more,
        texts.len() > 0 ==> spaced(texts.push(more)) == spaced(texts).push(' ') + more,
{
    reveal_strlit(" ");
    assert(texts.push(more).drop_last() =~= texts);
    if texts.len() > 0 {
        assert(spaced(texts.push(more)) =~= spaced(texts).push(' ') + more);
    }
}

/// Texts are taken one by one.
pub proof fn law_texts_are_taken_one_by_one(texts: Seq<String>)
    ensures
        contents(texts).len() == texts.len(),
        forall|i: int| 0 <= i < texts.len() ==> #[trigger] contents(texts)[i] == texts[i]@,
{
}

} // verus!
