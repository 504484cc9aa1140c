//! The lines of a text.
//!
//! A line ends at a line feed, or at the end of the text. The line feed is not part of the
//! line, and neither is a carriage return that stands directly before it. A text that ends
//! with a line feed has no empty line after it, and the empty text has no line at all.

use vstd::prelude::*;
use crate::text::{
    byte_len, char_at, lemma_byte_len_lower, lemma_byte_len_split, lemma_byte_len_step, len_bytes,
    split,
};

verus! {

/// Index of the first line feed of `s` at or after `from`; the length of `s` if there is
/// none.
pub open spec fn line_feed(s: Seq<char>, from: int) -> int
    decreases s.len() - from,
{
    if from < 0 || from >= s.len() {
        s.len() as int
    } else if s[from] == '\n' {
        from
    } else {
        line_feed(s, from + 1)
    }
}

/// The first line of a text that is not empty.
pub open spec fn first_line(s: Seq<char>) -> Seq<char> {
    let n = line_feed(s, 0);
    if 0 < n < s.len() && s[n - 1] == '\r' {
        s.take(n - 1)
    } else {
        s.take(n)
    }
}

/// What follows the first line and its terminator.
pub open spec fn after_first_line(s: Seq<char>) -> Seq<char> {
    let n = line_feed(s, 0);
    if n < s.len() {
        s.skip(n + 1)
    } else {
        Seq::empty()
    }
}

/// The lines of a text, in order.
pub open spec fn lines_of(s: Seq<char>) -> Seq<Seq<char>>
    decreases s.len(),
{
    if s.len() == 0 {
        Seq::empty()
    } else {
        proof {
            lemma_line_feed_bounds(s, 0);
        }
        seq![first_line(s)] + lines_of(after_first_line(s))
    }
}

/// The first line feed at or after `from` lies between `from` and the end of the text, and
/// no line feed stands before it.
pub proof fn lemma_line_feed_bounds(s: Seq<char>, from: int)
    requires
        0 <= from <= s.len(),
    ensures
        from <= line_feed(s, from) <= s.len(),
        line_feed(s, from) < s.len() ==> s[line_feed(s, from)] == '\n',
        forall|k: int| from <= k < line_feed(s, from) ==> s[k] != '\n',
    decreases s.len() - from,
{
    if from < s.len() && s[from] != '\n' {
        lemma_line_feed_bounds(s, from + 1);
    }
}

/// What follows the first line is shorter than the text.
pub proof fn lemma_after_first_line_shorter(s: Seq<char>)
    requires
        s.len() > 0,
    ensures
        after_first_line(s).len() < s.len(),
        first_line(s).len() <= s.len(),
{
    lemma_line_feed_bounds(s, 0);
}

/// Cuts the first line off a text. Gives the line and what follows its terminator, or
/// `None` when the text is empty.
pub fn next_line<'a>(s: &'a str) -> (r: Option<(&'a str, &'a str)>)
    ensures
        r is None <==> s@.len() == 0,
        r matches Some((line, rest)) ==> {
            &&& line@ == first_line(s@)
            &&& rest@ == after_first_line(s@)
            &&& rest@.len() < s@.len() <= usize::MAX
        },
{
    let total = len_bytes(s);
    proof {
        lemma_byte_len_lower(s@);
        assert(s@.take(0) =~= Seq::<char>::empty());
    }
    if total == 0 {
        return None;
    }
    proof {
        lemma_after_first_line_shorter(s@);
    }
    let mut at: usize = 0;
    let mut carriage = false;
    let ghost mut i: int = 0;
    while at < total
        invariant
            0 <= i <= s@.len(),
            0 < s@.len() <= usize::MAX,
            after_first_line(s@).len() < s@.len(),
            at == byte_len(s@.take(i)),
            total == byte_len(s@),
            line_feed(s@, 0) == line_feed(s@, i),
            carriage <==> (i > 0 && s@[i - 1] == '\r'),
        decreases s@.len() - i,
    {
        proof {
            lemma_byte_len_split(s@, i);
            lemma_byte_len_step(s@, i);
            lemma_byte_len_split(s@, i + 1);
        }
        let c = char_at(s, at, Ghost(i));
        if c == '\n' {
            let (_, rest) = split(s, at + 1, Ghost(i + 1));
            if carriage {
                proof {
                    lemma_byte_len_step(s@, i - 1);
                }
                let (line, _) = split(s, at - 1, Ghost(i - 1));
                return Some((line, rest));
            } else {
                let (line, _) = split(s, at, Ghost(i));
                return Some((line, rest));
            }
        }
        carriage = c == '\r';
        at = at + c.len_utf8();
        proof {
            i = i + 1;
        }
    }
    proof {
        lemma_byte_len_split(s@, i);
        assert(s@.skip(s@.len() as int) =~= Seq::<char>::empty());
    }
    let (line, rest) = split(s, total, Ghost(i));
    Some((line, rest))
}

} // verus!
