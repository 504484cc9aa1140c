//! What a text denotes: its stream of positioned characters, and the words in that stream.

use vstd::prelude::*;
use crate::lines::lines_of;
use crate::position::{PositionView, RangeView};
use crate::text::byte_len;
use crate::trusted::alphabetic;

verus! {

/// A character that can be part of a word: a letter, or the apostrophe.
pub open spec fn wordchar(c: char) -> bool {
    alphabetic(c) || c == '\''
}

/// A character with the place where it stands.
pub struct CharPosView {
    pub char: char,
    /// Line, and index of the character on that line.
    pub position: PositionView,
    /// Byte offset of the character in the text of its line.
    pub offset: int,
}

/// A word with the place where it stands.
pub struct WordView {
    pub text: Seq<char>,
    pub range: RangeView,
}

/// The character with index `k` on `line`, which is line number `n`.
pub open spec fn char_pos(line: Seq<char>, n: int, k: int) -> CharPosView {
    CharPosView {
        char: line[k],
        position: PositionView { line: n, character: k },
        offset: byte_len(line.take(k)) as int,
    }
}

/// Whether `c` is one of the characters of `lines`, with its position and offset.
pub open spec fn in_line(c: CharPosView, lines: Seq<Seq<char>>) -> bool {
    &&& 0 <= c.position.line < lines.len()
    &&& 0 <= c.position.character < lines[c.position.line].len()
    &&& c == char_pos(lines[c.position.line], c.position.line, c.position.character)
}

/// The characters of `line`, which is line number `n`, from index `from` on.
pub open spec fn line_stream(line: Seq<char>, n: int, from: int) -> Seq<CharPosView> {
    Seq::new((line.len() - from) as nat, |j: int| char_pos(line, n, from + j))
}

/// The characters of `lines`, the first of which is line number `n`.
pub open spec fn lines_stream(lines: Seq<Seq<char>>, n: int) -> Seq<CharPosView>
    decreases lines.len(),
{
    if lines.len() == 0 {
        Seq::empty()
    } else {
        line_stream(lines[0], n, 0) + lines_stream(lines.drop_first(), n + 1)
    }
}

/// The characters of `lines` that stand at `at` or after it.
pub open spec fn stream_from(lines: Seq<Seq<char>>, at: PositionView) -> Seq<CharPosView> {
    line_stream(lines[at.line], at.line, at.character) + lines_stream(
        lines.skip(at.line + 1),
        at.line + 1,
    )
}

/// The characters of a text in order, line terminators left out.
pub open spec fn char_stream(text: Seq<char>) -> Seq<CharPosView> {
    lines_stream(lines_of(text), 0)
}

/// The characters of a stream, without their places.
pub open spec fn chars_of(s: Seq<CharPosView>) -> Seq<char> {
    s.map_values(|c: CharPosView| c.char)
}

/// How many characters at the head of `s` are word characters on line `line`.
pub open spec fn run_len(s: Seq<CharPosView>, line: int) -> nat
    decreases s.len(),
{
    if s.len() > 0 && wordchar(s[0].char) && s[0].position.line == line {
        1 + run_len(s.drop_first(), line)
    } else {
        0
    }
}

/// The word that a run of characters makes up. It reaches from the first character to one
/// past the last.
pub open spec fn word_of(run: Seq<CharPosView>) -> WordView {
    WordView {
        text: chars_of(run),
        range: RangeView { start: run.first().position, end: run.last().position.step() },
    }
}

/// The words of a stream of characters: each longest run of word characters that stays
/// on one line, in order.
pub open spec fn words(s: Seq<CharPosView>) -> Seq<WordView>
    decreases s.len(),
{
    if s.len() == 0 {
        Seq::empty()
    } else if !wordchar(s[0].char) {
        words(s.drop_first())
    } else {
        proof {
            lemma_run_len_bounds(s, s[0].position.line);
        }
        let n = run_len(s, s[0].position.line);
        seq![word_of(s.take(n as int))] + words(s.skip(n as int))
    }
}

/// The word characters among `chars`, in order.
pub open spec fn letters(chars: Seq<char>) -> Seq<char> {
    chars.filter(|c: char| wordchar(c))
}

/// The texts of `ws`, one after the other.
pub open spec fn joined(ws: Seq<WordView>) -> Seq<char> {
    ws.map_values(|w: WordView| w.text).flatten()
}

/// The words of a text.
pub open spec fn tokens_of(text: Seq<char>) -> Seq<WordView> {
    words(char_stream(text))
}

/// A run is no longer than the stream, it is not empty where the stream starts with a
/// word character of that line, and it holds word characters of that line only.
pub proof fn lemma_run_len_bounds(s: Seq<CharPosView>, line: int)
    ensures
        run_len(s, line) <= s.len(),
        s.len() > 0 && wordchar(s[0].char) && s[0].position.line == line ==> run_len(s, line) >= 1,
        forall|j: int|
            0 <= j < run_len(s, line) ==> wordchar((#[trigger] s[j]).char) && s[j].position.line
                == line,
    decreases s.len(),
{
    if s.len() > 0 && wordchar(s[0].char) && s[0].position.line == line {
        let rest = s.drop_first();
        lemma_run_len_bounds(rest, line);
        assert forall|j: int| 0 <= j < run_len(s, line) implies wordchar((#[trigger] s[j]).char)
            && s[j].position.line == line by {
            if j > 0 {
                assert(s[j] == rest[j - 1]);
            }
        }
    }
}

/// A run of word characters on line `n`, followed by something that does not continue
/// it, is the first word of the stream.
pub proof fn lemma_words_after_run(run: Seq<CharPosView>, tail: Seq<CharPosView>, n: int)
    requires
        run.len() >= 1,
        forall|j: int|
            0 <= j < run.len() ==> wordchar((#[trigger] run[j]).char) && run[j].position.line
                == n,
        tail.len() == 0 || !wordchar(tail[0].char) || tail[0].position.line != n,
    ensures
        run_len(run + tail, n) == run.len(),
        words(run + tail) == seq![word_of(run)] + words(tail),
{
    lemma_run_len_of(run, tail, n);
    let s = run + tail;
    assert(s.take(run.len() as int) =~= run);
    assert(s.skip(run.len() as int) =~= tail);
    assert(s[0] == run[0]);
}

/// The length of a run that is followed by something that does not continue it.
proof fn lemma_run_len_of(run: Seq<CharPosView>, tail: Seq<CharPosView>, n: int)
    requires
        forall|j: int|
            0 <= j < run.len() ==> wordchar((#[trigger] run[j]).char) && run[j].position.line
                == n,
        tail.len() == 0 || !wordchar(tail[0].char) || tail[0].position.line != n,
    ensures
        run_len(run + tail, n) == run.len(),
    decreases run.len(),
{
    let s = run + tail;
    if run.len() == 0 {
        assert(s =~= tail);
    } else {
        assert(s[0] == run[0]);
        assert(s.drop_first() =~= run.drop_first() + tail);
        lemma_run_len_of(run.drop_first(), tail, n);
    }
}

/// Every character of `lines_stream(lines, n)` stands on line `n` or later.
pub proof fn lemma_lines_stream_line(lines: Seq<Seq<char>>, n: int, i: int)
    requires
        0 <= i < lines_stream(lines, n).len(),
    ensures
        lines_stream(lines, n)[i].position.line >= n,
    decreases lines.len(),
{
    if lines.len() > 0 {
        let head = line_stream(lines[0], n, 0);
        if i >= head.len() {
            lemma_lines_stream_line(lines.drop_first(), n + 1, i - head.len());
        }
    }
}

/// The first character at or after a position stands at that position, or on a later
/// line.
pub proof fn lemma_stream_from_head(lines: Seq<Seq<char>>, at: PositionView)
    requires
        0 <= at.line < lines.len(),
        0 <= at.character <= lines[at.line].len(),
        stream_from(lines, at).len() > 0,
    ensures
        stream_from(lines, at)[0].position.line == at.line ==> {
            &&& at.character < lines[at.line].len()
            &&& stream_from(lines, at)[0] == char_pos(lines[at.line], at.line, at.character)
        },
{
    if at.character == lines[at.line].len() {
        lemma_lines_stream_line(lines.skip(at.line + 1), at.line + 1, 0);
    }
}

} // verus!
