//! Text: trimming, splitting into lines, joining.
use vstd::prelude::*;
use vstd::string::{StrSliceExecFns, StringExecFns};

verus! {

/// Whether a character has Unicode's `White_Space` property.
pub open spec fn white_space(c: char) -> bool {
    ||| '\t' <= c <= '\r'
    ||| c == ' '
    ||| c == '\u{85}'
    ||| c == '\u{a0}'
    ||| c == '\u{1680}'
    ||| '\u{2000}' <= c <= '\u{200a}'
    ||| c == '\u{2028}'
    ||| c == '\u{2029}'
    ||| c == '\u{202f}'
    ||| c == '\u{205f}'
    ||| c == '\u{3000}'
}

/// Whether a character has Unicode's `White_Space` property.
pub fn is_white_space(c: char) -> (yes: bool)
    ensures
        yes == white_space(c),
{
    ('\t' <= c && c <= '\r') || c == ' ' || c == '\u{85}' || c == '\u{a0}' || c == '\u{1680}' || (
    '\u{2000}' <= c && c <= '\u{200a}') || c == '\u{2028}' || c == '\u{2029}' || c == '\u{202f}'
        || c == '\u{205f}' || c == '\u{3000}'
}

/// Whether two texts are the same.
pub fn same(a: &str, b: &str) -> (yes: bool)
    ensures
        yes == (a@ == b@),
{
    a.to_owned() == b.to_owned()
}

/// Without the white space at the start.
pub open spec fn trimmed_start(text: Seq<char>) -> Seq<char>
    decreases text.len(),
{
    if text.len() > 0 && white_space(text.first()) {
        trimmed_start(text.drop_first())
    } else {
        text
    }
}

/// Without the white space at the end.
pub open spec fn trimmed_end(text: Seq<char>) -> Seq<char>
    decreases text.len(),
{
    if text.len() > 0 && white_space(text.last()) {
        trimmed_end(text.drop_last())
    } else {
        text
    }
}

/// Without the white space at either end.
pub open spec fn trimmed(text: Seq<char>) -> Seq<char> {
    trimmed_end(trimmed_start(text))
}

/// What trimming comes to where the first and the last character that stay are
/// known.
proof fn lemma_trimmed(text: Seq<char>, from: int, to: int)
    requires
        0 <= from < to <= text.len(),
        forall|i: int| 0 <= i < from ==> white_space(#[trigger] text[i]),
        forall|i: int| to <= i < text.len() ==> white_space(#[trigger] text[i]),
        !white_space(text[from]),
        !white_space(text[to - 1]),
    ensures
        trimmed(text) == text.subrange(from, to),
    decreases text.len(),
{
    if from > 0 {
        assert(white_space(text[0]));
        let rest = text.drop_first();
        assert forall|i: int| 0 <= i < from - 1 implies white_space(#[trigger] rest[i]) by {
            assert(rest[i] == text[i + 1]);
        }
        assert forall|i: int| to - 1 <= i < rest.len() implies white_space(#[trigger] rest[i]) by {
            assert(rest[i] == text[i + 1]);
        }
        lemma_trimmed(rest, from - 1, to - 1);
        assert(rest.subrange(from - 1, to - 1) =~= text.subrange(from, to));
    } else {
        assert(trimmed_start(text) == text);
        if to < text.len() {
            assert(white_space(text[text.len() - 1]));
            let rest = text.drop_last();
            assert(rest[0] == text[0]);
            lemma_trimmed(rest, from, to);
            assert(trimmed_start(rest) == rest);
            assert(rest.subrange(from, to) =~= text.subrange(from, to));
        } else {
            assert(text.subrange(from, to) =~= text);
        }
    }
}

proof fn lemma_all_white(text: Seq<char>)
    requires
        forall|i: int| 0 <= i < text.len() ==> white_space(#[trigger] text[i]),
    ensures
        trimmed(text) == Seq::<char>::empty(),
    decreases text.len(),
{
    if text.len() > 0 {
        assert(white_space(text[0]));
        let rest = text.drop_first();
        assert forall|i: int| 0 <= i < rest.len() implies white_space(#[trigger] rest[i]) by {
            assert(rest[i] == text[i + 1]);
        }
        lemma_all_white(rest);
    } else {
        assert(trimmed(text) =~= Seq::<char>::empty());
    }
}

/// The text without the white space at either end.
pub fn trim(text: &str) -> (inner: &str)
    ensures
        inner@ == trimmed(text@),
{
    let length: usize = text.unicode_len();
    let mut from: usize = 0;
    let mut to: usize = 0;
    let mut seen = false;
    let mut at: usize = 0;
    for c in it: text.chars()
        invariant
            it.seq() == text@,
            text@.len() == length,
            at == it.index(),
            from <= to <= at,
            seen ==> from < to && !white_space(text@[from as int]) && !white_space(text@[to - 1]),
            !seen ==> from == 0 && to == 0,
            forall|i: int|
                0 <= i < at && (!seen || i < from || i >= to) ==> white_space(
                    #[trigger] text@[i],
                ),
    {
        if !is_white_space(c) {
            if !seen {
                from = at;
                seen = true;
            }
            to = at + 1;
        }
        at = at + 1;
    }
    proof {
        if seen {
            lemma_trimmed(text@, from as int, to as int);
        } else {
            lemma_all_white(text@);
            assert(text@.subrange(0, 0) =~= Seq::<char>::empty());
        }
    }
    text.substring_char(from, to)
}

/// The text split at each line feed. A text without one is a single line.
pub open spec fn lines_of(text: Seq<char>) -> Seq<Seq<char>>
    decreases text.len(),
{
    if text.len() == 0 {
        seq![Seq::empty()]
    } else {
        let before = lines_of(text.drop_last());
        if text.last() == '\n' {
            before.push(Seq::empty())
        } else {
            before.drop_last().push(before.last().push(text.last()))
        }
    }
}

/// What each text of a list holds.
pub open spec fn contents(texts: Seq<String>) -> Seq<Seq<char>> {
    Seq::new(texts.len(), |i: int| texts[i]@)
}

/// The texts one after the other, with a space between two of them.
pub open spec fn spaced(texts: Seq<Seq<char>>) -> Seq<char>
    decreases texts.len(),
{
    if texts.len() == 0 {
        Seq::empty()
    } else if texts.len() == 1 {
        texts[0]
    } else {
        spaced(texts.drop_last()) + " "@ + texts.last()
    }
}

/// The text split at each line feed.
pub fn split_lines(text: &str) -> (lines: Vec<String>)
    ensures
        contents(lines@) == lines_of(text@),
{
    let length: usize = text.unicode_len();
    let mut lines: Vec<String> = Vec::new();
    let mut from: usize = 0;
    let mut at: usize = 0;
    assert(text@.take(0) =~= Seq::<char>::empty());
    assert(lines_of(text@.take(0)) =~= contents(lines@).push(text@.subrange(0, 0)));
    for c in it: text.chars()
        invariant
            it.seq() == text@,
            text@.len() == length,
            at == it.index(),
            from <= at <= length,
            lines_of(text@.take(at as int)) == contents(lines@).push(
                text@.subrange(from as int, at as int),
            ),
    {
        let ghost before = lines_of(text@.take(at as int));
        assert(text@.take(at + 1).drop_last() =~= text@.take(at as int));
        assert(text@.take(at + 1).last() == c);
        if c == '\n' {
            let ghost old_lines = lines@;
            lines.push(text.substring_char(from, at).to_owned());
            from = at + 1;
            assert(contents(lines@) =~= contents(old_lines).push(lines@.last()@));
            assert(text@.subrange(from as int, at + 1) =~= Seq::<char>::empty());
        } else {
            assert(before.drop_last() =~= contents(lines@));
            assert(text@.subrange(from as int, at + 1) =~= text@.subrange(
                from as int,
                at as int,
            ).push(c));
        }
        at = at + 1;
    }
    assert(text@.take(at as int) =~= text@);
    let ghost old_lines = lines@;
    lines.push(text.substring_char(from, at).to_owned());
    assert(contents(lines@) =~= contents(old_lines).push(lines@.last()@));
    lines
}

/// The texts one after the other, with a space between two of them.
pub fn join_spaced(texts: &Vec<String>) -> (joined: String)
    ensures
        joined@ == spaced(contents(texts@)),
{
    let mut joined: String = String::new();
    let mut i: usize = 0;
    assert(contents(texts@).take(0) =~= Seq::empty());
    while i < texts.len()
        invariant
            i <= texts@.len(),
            joined@ == spaced(contents(texts@).take(i as int)),
        decreases texts@.len() - i,
    {
        let ghost all = contents(texts@);
        assert(all.take(i + 1).drop_last() =~= all.take(i as int));
        if i > 0 {
            joined.append(" ");
        }
        joined.append(texts[i].as_str());
        assert(joined@ =~= spaced(all.take(i + 1)));
        i = i + 1;
    }
    assert(contents(texts@).take(i as int) =~= contents(texts@));
    joined
}

} // verus!
