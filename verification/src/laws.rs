//! What holds of the words of every text.

use vstd::prelude::*;
use crate::lexer::is_wordchar;
use crate::lines::{after_first_line, first_line, lemma_line_feed_bounds, line_feed, lines_of};
use crate::model::{
    char_pos, char_stream, chars_of, joined, lemma_run_len_bounds, lemma_stream_from_head,
    lemma_words_after_run, letters, line_stream, lines_stream, run_len, stream_from, tokens_of,
    word_of, wordchar, words, CharPosView, WordView,
};
use crate::position::PositionView;

verus! {

/// Whether `w` is a word of `lines`: a longest run of word characters on one line, with
/// the range that the run takes up.
pub open spec fn is_word_of(w: WordView, lines: Seq<Seq<char>>) -> bool {
    let l = w.range.start.line;
    let a = w.range.start.character;
    let b = w.range.end.character;
    &&& w.range.end.line == l
    &&& 0 <= l < lines.len()
    &&& 0 <= a < b <= lines[l].len()
    &&& w.text == lines[l].subrange(a, b)
    &&& forall|k: int| a <= k < b ==> wordchar(#[trigger] lines[l][k])
    &&& (a == 0 || !wordchar(lines[l][a - 1]))
    &&& (b == lines[l].len() || !wordchar(lines[l][b]))
}

/// Where the run of word characters that holds index `a` of `line` ends: the first
/// index from `a` on that holds no word character, or the length of the line.
spec fn word_end(line: Seq<char>, a: int) -> int
    decreases line.len() - a,
{
    if 0 <= a < line.len() && wordchar(line[a]) {
        word_end(line, a + 1)
    } else {
        a
    }
}

/// Whether no word goes on across the place before index `a` of line `l`.
spec fn between_words(lines: Seq<Seq<char>>, l: int, a: int) -> bool {
    &&& 0 <= l < lines.len()
    &&& 0 <= a <= lines[l].len()
    &&& (a == 0 || a == lines[l].len() || !wordchar(lines[l][a - 1]) || !wordchar(lines[l][a]))
}

/// The run that holds index `a` ends in the line, holds word characters only, and is
/// followed by none.
proof fn lemma_word_end(line: Seq<char>, a: int)
    requires
        0 <= a <= line.len(),
    ensures
        a <= word_end(line, a) <= line.len(),
        forall|k: int| a <= k < word_end(line, a) ==> wordchar(#[trigger] line[k]),
        word_end(line, a) == line.len() || !wordchar(line[word_end(line, a)]),
    decreases line.len() - a,
{
    if a < line.len() && wordchar(line[a]) {
        lemma_word_end(line, a + 1);
    }
}

/// The stream from a place in a line is the rest of the line up to `b`, and then the
/// stream from `b`.
proof fn lemma_stream_split(lines: Seq<Seq<char>>, l: int, a: int, b: int)
    requires
        0 <= l < lines.len(),
        0 <= a <= b <= lines[l].len(),
    ensures
        stream_from(lines, PositionView { line: l, character: a }) == Seq::new(
            (b - a) as nat,
            |j: int| char_pos(lines[l], l, a + j),
        ) + stream_from(lines, PositionView { line: l, character: b }),
{
    let part = Seq::new((b - a) as nat, |j: int| char_pos(lines[l], l, a + j));
    assert(line_stream(lines[l], l, a) =~= part + line_stream(lines[l], l, b));
    assert(stream_from(lines, PositionView { line: l, character: a }) =~= part + stream_from(
        lines,
        PositionView { line: l, character: b },
    ));
}

/// At the end of a line the stream goes on with the next line, if there is one.
proof fn lemma_stream_next_line(lines: Seq<Seq<char>>, l: int)
    requires
        0 <= l < lines.len(),
    ensures
        stream_from(lines, PositionView { line: l, character: lines[l].len() as int }) == if l + 1
            < lines.len() {
            stream_from(lines, PositionView { line: l + 1, character: 0 })
        } else {
            Seq::empty()
        },
{
    let later = lines.skip(l + 1);
    assert(line_stream(lines[l], l, lines[l].len() as int) =~= Seq::<CharPosView>::empty());
    if l + 1 < lines.len() {
        assert(later[0] == lines[l + 1]);
        assert(later.drop_first() =~= lines.skip(l + 2));
        assert(stream_from(lines, PositionView { line: l, character: lines[l].len() as int })
            =~= stream_from(lines, PositionView { line: l + 1, character: 0 }));
    } else {
        assert(later.len() == 0);
        assert(stream_from(lines, PositionView { line: l, character: lines[l].len() as int })
            =~= Seq::<CharPosView>::empty());
    }
}

/// Every word of the stream that starts between two words is a word of the lines.
proof fn lemma_words_of_stream(lines: Seq<Seq<char>>, l: int, a: int, i: int)
    requires
        between_words(lines, l, a),
        0 <= i < words(stream_from(lines, PositionView { line: l, character: a })).len(),
    ensures
        is_word_of(words(stream_from(lines, PositionView { line: l, character: a }))[i], lines),
    decreases lines.len() - l, lines[l].len() - a,
{
    let line = lines[l];
    let s = stream_from(lines, PositionView { line: l, character: a });
    if a == line.len() {
        lemma_stream_next_line(lines, l);
        if l + 1 < lines.len() {
            lemma_words_of_stream(lines, l + 1, 0, i);
        }
    } else if !wordchar(line[a]) {
        lemma_stream_split(lines, l, a, a + 1);
        let rest = stream_from(lines, PositionView { line: l, character: a + 1 });
        assert(s[0] == char_pos(line, l, a));
        assert(s.drop_first() =~= rest);
        lemma_words_of_stream(lines, l, a + 1, i);
    } else {
        let b = word_end(line, a);
        lemma_word_end(line, a);
        lemma_stream_split(lines, l, a, b);
        let run = Seq::new((b - a) as nat, |j: int| char_pos(line, l, a + j));
        let tail = stream_from(lines, PositionView { line: l, character: b });
        assert(b > a);
        if tail.len() > 0 {
            lemma_stream_from_head(lines, PositionView { line: l, character: b });
        }
        lemma_words_after_run(run, tail, l);
        if i == 0 {
            let w = words(s)[0];
            assert(w.text =~= line.subrange(a, b));
            assert(is_word_of(w, lines));
        } else {
            lemma_words_of_stream(lines, l, b, i - 1);
            assert(words(s)[i] == words(tail)[i - 1]);
        }
    }
}

/// Every word of a text is a longest run of word characters on one of its lines: it
/// holds the characters of the run, and its range is that of the run.
pub proof fn lemma_words_are_runs(text: Seq<char>, i: int)
    requires
        0 <= i < tokens_of(text).len(),
    ensures
        is_word_of(tokens_of(text)[i], lines_of(text)),
{
    let lines = lines_of(text);
    if lines.len() > 0 {
        assert(lines.skip(1) =~= lines.drop_first());
        assert(stream_from(lines, PositionView { line: 0, character: 0 }) == char_stream(text));
        lemma_words_of_stream(lines, 0, 0, i);
    }
}

/// No word reaches across a line boundary: it ends on the line on which it starts.
pub proof fn lemma_word_stays_on_line(text: Seq<char>, i: int)
    requires
        0 <= i < tokens_of(text).len(),
    ensures
        tokens_of(text)[i].range.start.line == tokens_of(text)[i].range.end.line,
{
    lemma_words_are_runs(text, i);
}

/// The range of a word starts before it ends, and is as many characters wide as the
/// word is long.
pub proof fn lemma_word_range(text: Seq<char>, i: int)
    requires
        0 <= i < tokens_of(text).len(),
    ensures
        tokens_of(text)[i].range.start.le(tokens_of(text)[i].range.end),
        tokens_of(text)[i].range.end.character - tokens_of(text)[i].range.start.character
            == tokens_of(text)[i].text.len(),
{
    lemma_words_are_runs(text, i);
}

/// The word characters of two texts in a row are those of the first and then those of
/// the second.
proof fn lemma_letters_add(a: Seq<char>, b: Seq<char>)
    ensures
        letters(a + b) == letters(a) + letters(b),
{
    Seq::filter_distributes_over_add(a, b, |c: char| wordchar(c));
}

/// A text of word characters only is kept whole.
proof fn lemma_letters_all(a: Seq<char>)
    requires
        forall|k: int| 0 <= k < a.len() ==> wordchar(#[trigger] a[k]),
    ensures
        letters(a) == a,
    decreases a.len(),
{
    reveal(Seq::filter);
    if a.len() > 0 {
        lemma_letters_all(a.drop_last());
        assert(a.drop_last().push(a.last()) =~= a);
    }
}

/// A text without word characters leaves nothing.
proof fn lemma_letters_none(a: Seq<char>)
    requires
        forall|k: int| 0 <= k < a.len() ==> !wordchar(#[trigger] a[k]),
    ensures
        letters(a) == Seq::<char>::empty(),
    decreases a.len(),
{
    reveal(Seq::filter);
    if a.len() > 0 {
        lemma_letters_none(a.drop_last());
    }
}

/// The texts of a word and of further words, joined.
proof fn lemma_joined_first(w: WordView, ws: Seq<WordView>)
    ensures
        joined(seq![w] + ws) == w.text + joined(ws),
{
    let all = (seq![w] + ws).map_values(|w: WordView| w.text);
    assert(all.first() == w.text);
    assert(all.drop_first() =~= ws.map_values(|w: WordView| w.text));
}

/// The words of a stream hold its word characters, each once and in order, and nothing
/// else.
pub proof fn lemma_words_hold_the_letters(s: Seq<CharPosView>)
    ensures
        joined(words(s)) == letters(chars_of(s)),
    decreases s.len(),
{
    if s.len() == 0 {
        assert(chars_of(s) =~= Seq::<char>::empty());
        lemma_letters_none(chars_of(s));
        assert(joined(words(s)) =~= Seq::<char>::empty());
    } else if !wordchar(s[0].char) {
        let rest = s.drop_first();
        lemma_words_hold_the_letters(rest);
        assert(chars_of(s) =~= seq![s[0].char] + chars_of(rest));
        lemma_letters_add(seq![s[0].char], chars_of(rest));
        lemma_letters_none(seq![s[0].char]);
        assert(letters(chars_of(s)) =~= letters(chars_of(rest)));
    } else {
        let line = s[0].position.line;
        let n = run_len(s, line) as int;
        lemma_run_len_bounds(s, line);
        let run = s.take(n);
        let rest = s.skip(n);
        lemma_words_hold_the_letters(rest);
        lemma_joined_first(word_of(run), words(rest));
        assert(s =~= run + rest);
        assert(chars_of(s) =~= chars_of(run) + chars_of(rest));
        lemma_letters_add(chars_of(run), chars_of(rest));
        lemma_letters_all(chars_of(run));
    }
}

/// The characters of a stream are those of its lines, one line after the other.
pub proof fn lemma_chars_of_lines(lines: Seq<Seq<char>>, n: int)
    ensures
        chars_of(lines_stream(lines, n)) == lines.flatten(),
    decreases lines.len(),
{
    if lines.len() == 0 {
        assert(chars_of(lines_stream(lines, n)) =~= Seq::<char>::empty());
    } else {
        lemma_chars_of_lines(lines.drop_first(), n + 1);
        let head = line_stream(lines[0], n, 0);
        assert(chars_of(head) =~= lines[0]);
        assert(chars_of(lines_stream(lines, n)) =~= chars_of(head) + chars_of(
            lines_stream(lines.drop_first(), n + 1),
        ));
    }
}

/// The lines of a text hold its word characters, if line feed and carriage return are
/// none.
proof fn lemma_letters_of_lines(text: Seq<char>)
    requires
        !wordchar('\n'),
        !wordchar('\r'),
    ensures
        letters(lines_of(text).flatten()) == letters(text),
    decreases text.len(),
{
    if text.len() == 0 {
        assert(lines_of(text).flatten() =~= text);
    } else {
        let n = line_feed(text, 0);
        lemma_line_feed_bounds(text, 0);
        let line = first_line(text);
        let after = after_first_line(text);
        lemma_letters_of_lines(after);
        let lines = lines_of(text);
        assert(lines.first() == line);
        assert(lines.drop_first() =~= lines_of(after));
        assert(lines.flatten() == line + lines_of(after).flatten());
        lemma_letters_add(line, lines_of(after).flatten());
        let end = text.subrange(line.len() as int, text.len() - after.len());
        assert(text =~= line + end + after);
        assert forall|k: int| 0 <= k < end.len() implies !wordchar(#[trigger] end[k]) by {
            assert(end[k] == text[line.len() + k]);
        }
        lemma_letters_none(end);
        lemma_letters_add(line + end, after);
        lemma_letters_add(line, end);
        assert(letters(line) + letters(end) =~= letters(line));
    }
}

/// The words of a text hold the word characters of its lines, each once and in order,
/// and nothing else.
pub proof fn lemma_words_hold_the_letters_of_the_lines(text: Seq<char>)
    ensures
        joined(tokens_of(text)) == letters(lines_of(text).flatten()),
{
    lemma_words_hold_the_letters(char_stream(text));
    lemma_chars_of_lines(lines_of(text), 0);
}

/// The words of a text, joined, are the text without the characters that are not part
/// of a word: no word character is lost, none comes twice, and their order is kept.
/// This holds where line feed and carriage return are no word characters.
pub proof fn lemma_words_are_the_text_without_delimiters(text: Seq<char>)
    requires
        !wordchar('\n'),
        !wordchar('\r'),
    ensures
        joined(tokens_of(text)) == letters(text),
{
    lemma_words_hold_the_letters_of_the_lines(text);
    lemma_letters_of_lines(text);
}

/// Tells whether line feed and carriage return are no word characters. Where they are
/// none, the words of every text, joined, are the text without the characters that are
/// not part of a word.
pub fn line_ends_are_delimiters() -> (ok: bool)
    ensures
        ok == (!wordchar('\n') && !wordchar('\r')),
        ok ==> forall|text: Seq<char>| joined(#[trigger] tokens_of(text)) == letters(text),
{
    let ok = !is_wordchar('\n') && !is_wordchar('\r');
    proof {
        if ok {
            assert forall|text: Seq<char>| joined(#[trigger] tokens_of(text)) == letters(
                text,
            ) by {
                lemma_words_are_the_text_without_delimiters(text);
            }
        }
    }
    ok
}

} // verus!
