//! A lexer that cuts a text into words and says where each of them stands.

use vstd::prelude::*;
use crate::lines::{lines_of, next_line};
use crate::model::{
    char_pos, char_stream, in_line, lemma_stream_from_head, lemma_words_after_run, line_stream,
    stream_from, tokens_of, word_of, wordchar, words, CharPosView, WordView,
};
use crate::position::{Position, PositionView, Range};
use crate::text::{
    byte_len, char_at, char_width, lemma_byte_len_lower, lemma_byte_len_split,
    lemma_byte_len_step, len_bytes, slice,
};

verus! {

/// A character, the position at which it stands, and its byte offset in the text of its
/// line.
#[derive(Clone, Copy, Debug)]
pub struct CharPos {
    pub char: char,
    pub position: Position,
    pub offset: usize,
}

impl View for CharPos {
    type V = CharPosView;

    open spec fn view(&self) -> CharPosView {
        CharPosView { char: self.char, position: self.position@, offset: self.offset as int }
    }
}

/// Walks the characters of a text in order, line by line, and leaves the line terminators
/// out.
pub struct CharPosIter<'a> {
    /// What follows the terminator of the current line.
    rest: &'a str,
    current_line: &'a str,
    /// Byte offset in the current line of the character that comes next.
    offset: usize,
    /// Position of the character that comes next, if the current line has one left.
    position: Position,
    lines: Ghost<Seq<Seq<char>>>,
}

impl<'a> CharPosIter<'a> {
    /// All the lines of the text that is walked.
    pub closed spec fn lines(&self) -> Seq<Seq<char>> {
        self.lines@
    }

    /// Where the walk stands: on its current line, before the character with this index,
    /// or at the end of the line.
    pub closed spec fn position(&self) -> PositionView {
        self.position@
    }

    /// Whether the walk is in order: it stands in one of the lines of its text.
    pub closed spec fn wf(&self) -> bool {
        &&& self.position.line < self.lines@.len()
        &&& self.lines@[self.position.line as int] == self.current_line@
        &&& self.lines@.skip(self.position.line + 1) == lines_of(self.rest@)
        &&& self.position.character <= self.current_line@.len()
        &&& self.offset == byte_len(self.current_line@.take(self.position.character as int))
        &&& self.position.line + self.rest@.len() <= usize::MAX
    }

    /// The characters still to come.
    pub open spec fn upcoming(&self) -> Seq<CharPosView> {
        stream_from(self.lines(), self.position())
    }

    /// Starts a walk before the first character of `text`. An empty text has no lines, and
    /// no walk.
    pub fn new(text: &'a str) -> (r: Option<Self>)
        ensures
            r is None <==> text@.len() == 0,
            r matches Some(iter) ==> {
                &&& iter.wf()
                &&& iter.lines() == lines_of(text@)
                &&& iter.position() == (PositionView { line: 0, character: 0 })
                &&& iter.upcoming() == char_stream(text@)
            },
    {
        match next_line(text) {
            None => None,
            Some((line, rest)) => {
                proof {
                    let lines = lines_of(text@);
                    assert(lines.skip(1) =~= lines_of(rest@));
                    assert(lines.drop_first() =~= lines.skip(1));
                    assert(line@.take(0) =~= Seq::<char>::empty());
                }
                Some(
                    CharPosIter {
                        rest,
                        current_line: line,
                        offset: 0,
                        position: Position { line: 0, character: 0 },
                        lines: Ghost(lines_of(text@)),
                    },
                )
            },
        }
    }

    /// The text of the line on which the walk stands.
    pub fn current_line(&self) -> (line: &'a str)
        requires
            self.wf(),
        ensures
            line@ == self.lines()[self.position().line],
    {
        self.current_line
    }

    /// Gives the next character of the text, or `None` when there is none left.
    pub fn next(&mut self) -> (r: Option<CharPos>)
        requires
            old(self).wf(),
        ensures
            final(self).wf(),
            final(self).lines() == old(self).lines(),
            match r {
                Some(c) => {
                    &&& old(self).upcoming().len() > 0
                    &&& c@ == old(self).upcoming()[0]
                    &&& final(self).upcoming() == old(self).upcoming().drop_first()
                    &&& final(self).position() == c@.position.step()
                    &&& in_line(c@, final(self).lines())
                    &&& c@.offset + char_width(c@.char) <= usize::MAX
                },
                None => {
                    &&& old(self).upcoming().len() == 0
                    &&& final(self).upcoming().len() == 0
                    &&& final(self).position() == (PositionView {
                        line: final(self).lines().len() - 1,
                        character: final(self).lines().last().len() as int,
                    })
                },
            },
    {
        loop
            invariant
                self.wf(),
                self.lines() == old(self).lines(),
                self.upcoming() == old(self).upcoming(),
            decreases self.rest@.len(),
        {
            let width = len_bytes(self.current_line);
            proof {
                lemma_byte_len_split(self.current_line@, self.position.character as int);
            }
            if self.offset < width {
                let ghost k = self.position.character as int;
                let ghost before = self.upcoming();
                proof {
                    lemma_byte_len_step(self.current_line@, k);
                    lemma_byte_len_split(self.current_line@, k + 1);
                    lemma_byte_len_lower(self.current_line@);
                }
                let c = char_at(self.current_line, self.offset, Ghost(k));
                let found = CharPos { char: c, position: self.position, offset: self.offset };
                self.offset = self.offset + c.len_utf8();
                self.position.character = self.position.character + 1;
                proof {
                    let line = self.current_line@;
                    let n = self.position.line as int;
                    assert(line_stream(line, n, k)[0] == char_pos(line, n, k));
                    assert(line_stream(line, n, k).drop_first() =~= line_stream(line, n, k + 1));
                    assert(before.drop_first() =~= self.upcoming());
                }
                return Some(found);
            }
            match next_line(self.rest) {
                None => {
                    proof {
                        let n = self.position.line as int;
                        let k = self.position.character as int;
                        assert(line_stream(self.current_line@, n, k) =~= Seq::<
                            CharPosView,
                        >::empty());
                        assert(self.lines@.skip(n + 1).len() == 0);
                    }
                    return None;
                },
                Some((line, rest)) => {
                    proof {
                        let n = self.position.line as int;
                        let later = self.lines@.skip(n + 1);
                        assert(later.len() > 0);
                        assert(later[0] == line@);
                        assert(later.drop_first() =~= lines_of(rest@));
                        assert(later.drop_first() =~= self.lines@.skip(n + 2));
                        assert(self.lines@[n + 1] == line@);
                        let k = self.position.character as int;
                        assert(line_stream(self.current_line@, n, k) =~= Seq::<
                            CharPosView,
                        >::empty());
                        assert(line@.take(0) =~= Seq::<char>::empty());
                    }
                    self.current_line = line;
                    self.rest = rest;
                    self.offset = 0;
                    self.position = Position { line: self.position.line + 1, character: 0 };
                },
            }
        }
    }
}

/// A word of a text, and the range that it takes up.
#[derive(Clone, Copy, Debug, PartialEq, Eq)]
pub struct Word<'a> {
    pub text: &'a str,
    pub range: Range,
}

impl<'a> View for Word<'a> {
    type V = WordView;

    open spec fn view(&self) -> WordView {
        WordView { text: self.text@, range: self.range@ }
    }
}

/// Whether a character can be part of a word: a letter can, and so can the apostrophe.
pub fn is_wordchar(c: char) -> (r: bool)
    ensures
        r == wordchar(c),
{
    joins_word(c, c.is_alphabetic())
}

/// Whether `c` can be part of a word, where `letter` says whether it is a letter.
pub fn joins_word(c: char, letter: bool) -> (r: bool)
    ensures
        r == (letter || c == '\''),
{
    letter || c == '\''
}

/// Gives the words of a text one by one.
pub struct Lexer<'a> {
    iter: CharPosIter<'a>,
    /// A word character that was taken from the walk already: the first of the next word.
    pending: Option<CharPos>,
    current_word: Option<Word<'a>>,
}

impl<'a> Lexer<'a> {
    /// The characters that no word was made of yet.
    spec fn unread(&self) -> Seq<CharPosView> {
        match self.pending {
            Some(c) => seq![c@] + self.iter.upcoming(),
            None => self.iter.upcoming(),
        }
    }

    /// Whether the lexer is in order: its walk is, and so is the character that it holds
    /// back, if it holds one.
    pub closed spec fn wf(&self) -> bool {
        &&& self.iter.wf()
        &&& match self.pending {
            Some(c) => {
                &&& wordchar(c.char)
                &&& in_line(c@, self.iter.lines())
                &&& self.iter.position() == c@.position.step()
                &&& c@.offset + char_width(c@.char) <= usize::MAX
            },
            None => true,
        }
    }

    /// The words still to come, in order.
    pub closed spec fn upcoming(&self) -> Seq<WordView> {
        words(self.unread())
    }

    /// The word that the last call of `advance` found, if it found one.
    pub closed spec fn current(&self) -> Option<WordView> {
        match self.current_word {
            Some(word) => Some(word@),
            None => None,
        }
    }

    /// Whether the lexer is as `new` makes it for `text`: all the words of the text are
    /// still to come.
    pub open spec fn starts_on(self, text: Seq<char>) -> bool {
        &&& self.wf()
        &&& self.upcoming() == tokens_of(text)
        &&& self.current() is None
    }

    /// Whether `after` is what a call of `advance` makes of the lexer: the first of the
    /// words to come is the current one, or there is no current one when none was to come.
    pub open spec fn advances_to(self, after: Self) -> bool {
        &&& after.wf()
        &&& self.upcoming().len() > 0 ==> {
            &&& after.current() == Some(self.upcoming()[0])
            &&& after.upcoming() == self.upcoming().drop_first()
        }
        &&& self.upcoming().len() == 0 ==> {
            &&& after.current() is None
            &&& after.upcoming().len() == 0
        }
    }

    /// Starts a lexer before the first word of `text`. An empty text has no lines, and no
    /// lexer.
    pub fn new(text: &'a str) -> (r: Option<Self>)
        ensures
            r is None <==> text@.len() == 0,
            r matches Some(lexer) ==> lexer.starts_on(text@),
    {
        let iter = CharPosIter::new(text);
        match iter {
            None => None,
            Some(iter) => Some(Self { iter, pending: None, current_word: None }),
        }
    }

    /// The word of `line` between two characters, the first of which is part of it.
    fn make_word_at_line(line: &'a str, begin: CharPos, end: CharPos) -> (word: Word<'a>)
        requires
            begin.position.character <= end.position.character <= line@.len(),
            begin@.offset == byte_len(line@.take(begin@.position.character)),
            end@.offset == byte_len(line@.take(end@.position.character)),
        ensures
            word@.text == line@.subrange(begin@.position.character, end@.position.character),
            word.range == (Range { start: begin.position, end: end.position }),
    {
        Word {
            text: slice(
                line,
                begin.offset,
                end.offset,
                Ghost(begin@.position.character),
                Ghost(end@.position.character),
            ),
            range: Range { start: begin.position, end: end.position },
        }
    }

    /// The word that the last call of `advance` found.
    pub fn get(&self) -> (r: Option<&Word<'a>>)
        ensures
            match r {
                Some(word) => self.current() == Some(word@),
                None => self.current() is None,
            },
    {
        match &self.current_word {
            None => None,
            Some(word) => Some(word),
        }
    }

    /// Goes on to the next word. Once there is none, there never is one again.
    pub fn advance(&mut self)
        requires
            old(self).wf(),
        ensures
            old(self).advances_to(*final(self)),
    {
        let ghost lines = self.iter.lines();
        let mut found: Option<CharPos> = self.pending;
        self.pending = None;
        while found.is_none()
            invariant
                self.iter.wf(),
                self.iter.lines() == lines,
                self.pending is None,
                match found {
                    Some(c) => {
                        &&& wordchar(c.char)
                        &&& in_line(c@, lines)
                        &&& self.iter.position() == c@.position.step()
                        &&& c@.offset + char_width(c@.char) <= usize::MAX
                        &&& words(seq![c@] + self.iter.upcoming()) == old(self).upcoming()
                    },
                    None => words(self.iter.upcoming()) == old(self).upcoming(),
                },
            decreases self.iter.upcoming().len(),
        {
            let ghost before = self.iter.upcoming();
            match self.iter.next() {
                None => {
                    self.current_word = None;
                    return ;
                },
                Some(c) => {
                    if is_wordchar(c.char) {
                        proof {
                            assert(seq![c@] + self.iter.upcoming() =~= before);
                        }
                        found = Some(c);
                    }
                },
            }
        }
        let begin = found.unwrap();
        let line = self.iter.current_line();
        let ghost n = begin@.position.line;
        let ghost b = begin@.position.character;
        let ghost unread = seq![begin@] + self.iter.upcoming();
        let ghost mut run = seq![begin@];
        let mut end = begin;
        loop
            invariant_except_break
                self.pending is None,
                unread == run + self.iter.upcoming(),
                self.iter.position() == (PositionView { line: n, character: b + run.len() }),
            invariant
                self.iter.wf(),
                self.iter.lines() == lines,
                0 <= n < lines.len(),
                line@ == lines[n],
                0 <= b,
                run.len() >= 1,
                b + run.len() <= line@.len(),
                forall|j: int|
                    0 <= j < run.len() ==> run[j] == char_pos(line@, n, b + j) && wordchar(
                        (#[trigger] run[j]).char,
                    ),
                end@ == run.last(),
                begin@ == run.first(),
                end@.offset + char_width(end@.char) <= usize::MAX,
            ensures
                self.wf(),
                words(unread) == seq![word_of(run)] + self.upcoming(),
            decreases self.iter.upcoming().len(),
        {
            let ghost before = self.iter.upcoming();
            match self.iter.next() {
                None => {
                    proof {
                        assert(unread =~= run);
                        lemma_words_after_run(run, Seq::empty(), n);
                    }
                    break ;
                },
                Some(c) => {
                    let ghost after = self.iter.upcoming();
                    proof {
                        assert(before =~= seq![c@] + after);
                    }
                    if !is_wordchar(c.char) {
                        proof {
                            lemma_words_after_run(run, before, n);
                        }
                        break ;
                    }
                    if c.position.line != begin.position.line {
                        self.pending = Some(c);
                        proof {
                            lemma_words_after_run(run, before, n);
                        }
                        break ;
                    }
                    proof {
                        lemma_stream_from_head(
                            lines,
                            PositionView { line: n, character: b + run.len() },
                        );
                        run = run.push(c@);
                        assert(unread =~= run + after);
                    }
                    end = c;
                },
            }
        }
        proof {
            lemma_byte_len_step(line@, end@.position.character);
            lemma_byte_len_lower(line@.take(end@.position.character + 1));
        }
        let stop = CharPos {
            char: end.char,
            position: Position { line: end.position.line, character: end.position.character + 1 },
            offset: end.offset + end.char.len_utf8(),
        };
        let word = Self::make_word_at_line(line, begin, stop);
        proof {
            assert(word@.text =~= word_of(run).text);
            assert(word@ == word_of(run));
            assert((seq![word_of(run)] + self.upcoming()).drop_first() =~= self.upcoming());
        }
        self.current_word = Some(word);
    }

    /// Goes on to the next word and gives it.
    pub fn next(&mut self) -> (r: Option<&Word<'a>>)
        requires
            old(self).wf(),
        ensures
            final(self).wf(),
            match r {
                Some(word) => {
                    &&& old(self).upcoming().len() > 0
                    &&& word@ == old(self).upcoming()[0]
                    &&& final(self).upcoming() == old(self).upcoming().drop_first()
                },
                None => old(self).upcoming().len() == 0 && final(self).upcoming().len() == 0,
            },
    {
        self.advance();
        self.get()
    }
}

/// Whether lexer `i + 1` of `states` is what `advance` makes of lexer `i`.
pub open spec fn is_step<'a>(states: Seq<Lexer<'a>>, i: int) -> bool {
    states[i].advances_to(states[i + 1])
}

/// Whether each lexer of `states` but the first is what `advance` makes of the one
/// before it.
pub open spec fn is_drain<'a>(states: Seq<Lexer<'a>>) -> bool {
    forall|i: int| 0 <= i < states.len() - 1 ==> #[trigger] is_step(states, i)
}

/// A lexer that was started on a text and advanced `k` times has word `k` of the text
/// as its current word, counting from one, and the words after it still to come. Once
/// the words are used up there is no current word.
pub proof fn lemma_drain<'a>(states: Seq<Lexer<'a>>, text: Seq<char>, k: int)
    requires
        is_drain(states),
        0 <= k < states.len(),
        states[0].starts_on(text),
    ensures
        k <= tokens_of(text).len() ==> states[k].upcoming() == tokens_of(text).skip(k),
        k > tokens_of(text).len() ==> states[k].upcoming().len() == 0,
        0 < k <= tokens_of(text).len() ==> states[k].current() == Some(tokens_of(text)[k - 1]),
        k > tokens_of(text).len() ==> states[k].current() is None,
    decreases k,
{
    let all = tokens_of(text);
    if k == 0 {
        assert(all.skip(0) =~= all);
    } else {
        lemma_drain(states, text, k - 1);
        assert(is_step(states, k - 1));
        if k <= all.len() {
            assert(all.skip(k - 1).drop_first() =~= all.skip(k));
        }
    }
}

/// Two lexers that were started on the same text and advanced equally often have the
/// same current word, and the same words still to come.
pub proof fn lemma_same_text_same_words<'a, 'b>(
    xs: Seq<Lexer<'a>>,
    ys: Seq<Lexer<'b>>,
    text: Seq<char>,
    k: int,
)
    requires
        is_drain(xs),
        is_drain(ys),
        0 <= k < xs.len(),
        k < ys.len(),
        xs[0].starts_on(text),
        ys[0].starts_on(text),
    ensures
        xs[k].current() == ys[k].current(),
        xs[k].upcoming() == ys[k].upcoming(),
{
    lemma_drain(xs, text, k);
    lemma_drain(ys, text, k);
    if k > tokens_of(text).len() {
        assert(xs[k].upcoming() =~= ys[k].upcoming());
    }
}

/// Once `advance` has found no word, it never finds one again.
pub proof fn lemma_exhaustion_is_final<'a>(before: Lexer<'a>, spent: Lexer<'a>, later: Lexer<'a>)
    requires
        before.advances_to(spent),
        spent.current() is None,
        spent.advances_to(later),
    ensures
        later.current() is None,
        later.upcoming().len() == 0,
{
}

} // verus!
