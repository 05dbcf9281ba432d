//! Splitting text into lines.
//!
//! A line ends at a line feed. The line feed is not part of the line, and
//! neither is a carriage return that stands directly before it. Text after
//! the last line feed is a line of its own unless it is empty, so a final
//! line feed adds no empty line.

use vstd::prelude::*;
use crate::pattern::push_char;

verus! {

/// `s` without one trailing carriage return, if it has one.
pub open spec fn trim_cr(s: Seq<char>) -> Seq<char> {
    if s.len() > 0 && s.last() == '\r' {
        s.drop_last()
    } else {
        s
    }
}

/// A carriage return that has been read but not yet put on the line, as text.
pub open spec fn held(cr: bool) -> Seq<char> {
    if cr {
        seq!['\r']
    } else {
        seq![]
    }
}

/// The lines of `text` from position `start` on, where `start..pos` is known
/// to hold no line feed.
pub open spec fn lines_from(text: Seq<char>, start: int, pos: int) -> Seq<Seq<char>>
    decreases text.len() - pos,
{
    if pos >= text.len() {
        if start < text.len() {
            seq![text.subrange(start, text.len() as int)]
        } else {
            seq![]
        }
    } else if text[pos] == '\n' {
        seq![trim_cr(text.subrange(start, pos))] + lines_from(text, pos + 1, pos + 1)
    } else {
        lines_from(text, start, pos + 1)
    }
}

/// The lines of `text`, in order.
pub open spec fn lines_of(text: Seq<char>) -> Seq<Seq<char>> {
    lines_from(text, 0, 0)
}

/// The character sequences that a vector of strings holds.
pub open spec fn texts(v: Seq<String>) -> Seq<Seq<char>> {
    v.map_values(|s: String| s@)
}

/// Appending a line feed to text that ends in neither a line feed nor a
/// carriage return leaves the lines from `start` on as they are.
proof fn lemma_final_newline(text: Seq<char>, start: int, pos: int)
    requires
        text.len() > 0,
        text.last() != '\n',
        text.last() != '\r',
        0 <= start <= pos <= text.len(),
        start == 0 || text[start - 1] == '\n',
    ensures
        lines_from(text.push('\n'), start, pos) == lines_from(text, start, pos),
    decreases text.len() - pos,
{
    let longer = text.push('\n');
    let n = text.len() as int;
    reveal_with_fuel(lines_from, 2);
    if pos >= n {
        assert(start < n);
        assert(longer.subrange(start, n) =~= text.subrange(start, n));
        assert(text.subrange(start, n).last() == text.last());
        assert(lines_from(longer, n + 1, n + 1) =~= Seq::<Seq<char>>::empty());
        assert(lines_from(longer, start, pos) =~= seq![text.subrange(start, n)]);
    } else if text[pos] == '\n' {
        assert(longer[pos] == '\n');
        assert(longer.subrange(start, pos) =~= text.subrange(start, pos));
        lemma_final_newline(text, pos + 1, pos + 1);
    } else {
        assert(longer[pos] == text[pos]);
        lemma_final_newline(text, start, pos + 1);
    }
}

/// A final line feed adds no line: text that ends in neither a line feed nor
/// a carriage return has the same lines with a line feed appended.
pub proof fn law_final_newline_adds_no_line(text: Seq<char>)
    requires
        text.len() > 0,
        text.last() != '\n',
        text.last() != '\r',
    ensures
        lines_of(text.push('\n')) == lines_of(text),
{
    lemma_final_newline(text, 0, 0);
}

/// Whether `line` holds no line feed.
pub open spec fn no_line_feed(line: Seq<char>) -> bool {
    forall|j: int| 0 <= j < line.len() ==> line[j] != '\n'
}

/// No line from `start` on holds a line feed, if `start..pos` holds none.
proof fn lemma_no_line_feed(text: Seq<char>, start: int, pos: int)
    requires
        0 <= start <= pos <= text.len(),
        forall|k: int| start <= k < pos ==> text[k] != '\n',
    ensures
        forall|i: int|
            0 <= i < lines_from(text, start, pos).len() ==> no_line_feed(
                #[trigger] lines_from(text, start, pos)[i],
            ),
    decreases text.len() - pos,
{
    let n = text.len() as int;
    let lines = lines_from(text, start, pos);
    if pos >= n {
        if start < n {
            assert(lines =~= seq![text.subrange(start, n)]);
            assert(no_line_feed(lines[0]));
        } else {
            assert(lines =~= Seq::<Seq<char>>::empty());
        }
    } else if text[pos] == '\n' {
        lemma_no_line_feed(text, pos + 1, pos + 1);
        let whole = text.subrange(start, pos);
        let head = trim_cr(whole);
        let tail = lines_from(text, pos + 1, pos + 1);
        assert(lines == seq![head] + tail);
        assert(no_line_feed(head)) by {
            assert forall|j: int| 0 <= j < head.len() implies head[j] != '\n' by {
                assert(head[j] == whole[j]);
            }
        }
        assert forall|i: int| 0 <= i < lines.len() implies no_line_feed(#[trigger] lines[i]) by {
            if i > 0 {
                assert(lines[i] == tail[i - 1]);
            }
        }
    } else {
        lemma_no_line_feed(text, start, pos + 1);
        assert(lines == lines_from(text, start, pos + 1));
    }
}

/// No line holds a line feed.
pub proof fn law_lines_hold_no_line_feed(text: Seq<char>)
    ensures
        forall|i: int|
            0 <= i < lines_of(text).len() ==> no_line_feed(#[trigger] lines_of(text)[i]),
{
    lemma_no_line_feed(text, 0, 0);
}

/// Splits `text` into its lines.
pub fn split_lines(text: &str) -> (lines: Vec<String>)
    ensures
        texts(lines@) == lines_of(text@),
{
    let mut lines: Vec<String> = Vec::new();
    let mut line = String::new();
    // A carriage return that was read and not yet appended: it is dropped if
    // a line feed follows, appended otherwise.
    let mut held_cr = false;
    let mut open = false;
    let ghost mut start: int = 0;
    for c in it: text.chars()
        invariant
            it.seq() == text@,
            0 <= start <= it.index() <= text@.len(),
            open == (start < it.index()),
            line@ + held(held_cr) == text@.subrange(start, it.index() as int),
            !held_cr && start < it.index() ==> text@[it.index() - 1] != '\r',
            texts(lines@) + lines_from(text@, start, it.index() as int) == lines_of(text@),
    {
        let ghost i: int = it.index() as int;
        let ghost seen = text@.subrange(start, i);
        assert(c == text@[i]);
        assert(text@.subrange(start, i + 1) =~= seen.push(c));
        if c == '\n' {
            proof {
                assert(trim_cr(seen) =~= line@);
                assert(texts(lines@.push(line)) =~= texts(lines@).push(line@));
                assert(texts(lines@.push(line)) + lines_from(text@, i + 1, i + 1) =~= texts(lines@)
                    + lines_from(text@, start, i));
                assert(text@.subrange(i + 1, i + 1) =~= Seq::<char>::empty());
                start = i + 1;
            }
            lines.push(line);
            line = String::new();
            held_cr = false;
            open = false;
        } else {
            if held_cr {
                push_char(&mut line, '\r');
            }
            assert(line@ =~= seen);
            if c == '\r' {
                held_cr = true;
            } else {
                held_cr = false;
                push_char(&mut line, c);
            }
            open = true;
            assert(line@ + held(held_cr) =~= seen.push(c));
        }
    }
    let ghost n: int = text@.len() as int;
    if open {
        if held_cr {
            push_char(&mut line, '\r');
        }
        proof {
            assert(line@ =~= text@.subrange(start, n));
            assert(texts(lines@.push(line)) =~= texts(lines@).push(line@));
            assert(texts(lines@.push(line)) =~= texts(lines@) + lines_from(text@, start, n));
        }
        lines.push(line);
    } else {
        assert(texts(lines@) =~= texts(lines@) + lines_from(text@, start, n));
    }
    lines
}

} // verus!
