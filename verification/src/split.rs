//! Splitting the text of a manifest file into its documents.

use vstd::prelude::*;

verus! {

/// `String::push`: appends one character to the end of the string.
pub assume_specification[ std::string::String::push ](s: &mut std::string::String, ch: char)
    ensures
        final(s)@ == old(s)@.push(ch),
;

/// Where the first line feed stands in `text`; its length when it has none.
pub open spec fn first_break(text: Seq<char>) -> int
    decreases text.len(),
{
    if text.len() == 0 || text[0] == '\n' {
        0
    } else {
        1 + first_break(text.drop_first())
    }
}

/// A line without the carriage return that ended it, if one did.
pub open spec fn trimmed(line: Seq<char>) -> Seq<char> {
    if line.len() > 0 && line.last() == '\r' {
        line.drop_last()
    } else {
        line
    }
}

/// The lines of a text. A line ends at a line feed, which is not part of it,
/// nor is a carriage return just before the line feed. What follows the last
/// line feed is a line too, unless it is empty.
pub open spec fn lines(text: Seq<char>) -> Seq<Seq<char>>
    decreases text.len(),
{
    let n = first_break(text);
    if text.len() == 0 {
        Seq::empty()
    } else if n < 0 || n >= text.len() {
        seq![text]
    } else {
        seq![trimmed(text.subrange(0, n))] + lines(text.subrange(n + 1, text.len() as int))
    }
}

/// The line that separates two documents: exactly `---`.
pub open spec fn is_separator(line: Seq<char>) -> bool {
    line == seq!['-', '-', '-']
}

/// The documents that a sequence of lines holds. There is one to begin with;
/// a separator line opens a new, empty one; any other line goes to the end of
/// the last one, after a line feed.
pub open spec fn chunks(lines: Seq<Seq<char>>) -> Seq<Seq<char>>
    decreases lines.len(),
{
    if lines.len() == 0 {
        seq![Seq::empty()]
    } else {
        let before = chunks(lines.drop_last());
        let line = lines.last();
        if is_separator(line) {
            before.push(Seq::empty())
        } else {
            before.drop_last().push(before.last() + seq!['\n'] + line)
        }
    }
}

/// The documents of a text.
pub open spec fn documents(text: Seq<char>) -> Seq<Seq<char>> {
    chunks(lines(text))
}

/// How many of the lines are separators.
pub open spec fn separators(lines: Seq<Seq<char>>) -> nat
    decreases lines.len(),
{
    if lines.len() == 0 {
        0
    } else if is_separator(lines.last()) {
        separators(lines.drop_last()) + 1
    } else {
        separators(lines.drop_last())
    }
}

/// There is one document more than there are separator lines: a text without
/// separators is one document, and two separators in a row enclose an empty
/// one.
pub proof fn lemma_chunk_count(lines: Seq<Seq<char>>)
    ensures
        chunks(lines).len() == separators(lines) + 1,
        lines.len() > 0 && is_separator(lines.last()) ==> chunks(lines).last() == Seq::<char>::empty(),
    decreases lines.len(),
{
    if lines.len() > 0 {
        lemma_chunk_count(lines.drop_last());
    }
}

/// A place before which no line feed stands, and at which one stands or the
/// text ends, is `first_break`.
proof fn lemma_first_break_is(text: Seq<char>, n: int)
    requires
        0 <= n <= text.len(),
        forall|j: int| 0 <= j < n ==> text[j] != '\n',
        n < text.len() ==> text[n] == '\n',
    ensures
        first_break(text) == n,
    decreases text.len(),
{
    if n > 0 {
        let rest = text.drop_first();
        assert forall|j: int| 0 <= j < n - 1 implies rest[j] != '\n' by {
            assert(rest[j] == text[j + 1]);
        }
        lemma_first_break_is(rest, n - 1);
    }
}

/// Whether the line is exactly `---`.
fn line_is_separator(line: &Vec<char>) -> (r: bool)
    ensures
        r == is_separator(line@),
{
    let r = line.len() == 3 && line[0] == '-' && line[1] == '-' && line[2] == '-';
    proof {
        if r {
            assert(line@ =~= seq!['-', '-', '-']);
        }
    }
    r
}

/// The view of the documents held so far: the finished ones, then the open
/// one.
spec fn held(finished: Seq<String>, open: Seq<char>) -> Seq<Seq<char>> {
    Seq::new(finished.len(), |i: int| finished[i]@).push(open)
}

/// Hands one line to the documents held so far.
fn take_line(finished: &mut Vec<String>, open: &mut String, line: &Vec<char>, Ghost(seen): Ghost<Seq<Seq<char>>>)
    requires
        held(old(finished)@, old(open)@) == chunks(seen),
    ensures
        held(final(finished)@, final(open)@) == chunks(seen.push(line@)),
{
    let ghost before = held(finished@, open@);
    assert(seen.push(line@).drop_last() =~= seen);
    if line_is_separator(line) {
        let mut done = String::new();
        core::mem::swap(open, &mut done);
        finished.push(done);
        assert(held(finished@, open@) =~= before.push(Seq::empty()));
    } else {
        let ghost start = open@;
        open.push('\n');
        let mut i: usize = 0;
        while i < line.len()
            invariant
                i <= line.len(),
                open@ == start + seq!['\n'] + line@.subrange(0, i as int),
            decreases line.len() - i,
        {
            open.push(line[i]);
            i += 1;
            assert(open@ =~= start + seq!['\n'] + line@.subrange(0, i as int));
        }
        assert(line@.subrange(0, i as int) =~= line@);
        assert(held(finished@, open@) =~= before.drop_last().push(before.last() + seq!['\n'] + line@));
    }
}

/// Splits the text of one file into its documents, in order.
pub fn split_documents(text: &str) -> (out: Vec<String>)
    ensures
        out.len() == documents(text@).len(),
        forall|i: int| 0 <= i < out.len() ==> (#[trigger] out[i])@ == documents(text@)[i],
        out.len() >= 1,
{
    let mut finished: Vec<String> = Vec::new();
    let mut open = String::new();
    let mut line: Vec<char> = Vec::new();
    let ghost seen: Seq<Seq<char>> = Seq::empty();
    let ghost start: int = 0;
    assert(held(finished@, open@) =~= chunks(seen));
    assert(text@.subrange(0, text@.len() as int) =~= text@);
    for c in it: text.chars()
        invariant
            it.seq() == text@,
            0 <= start <= it.index() <= text@.len(),
            line@ == text@.subrange(start, it.index() as int),
            forall|j: int| start <= j < it.index() ==> text@[j] != '\n',
            lines(text@) == seen + lines(text@.subrange(start, text@.len() as int)),
            held(finished@, open@) == chunks(seen),
    {
        let ghost i = it.index() as int;
        let ghost rest = text@.subrange(start, text@.len() as int);
        if c == '\n' {
            proof {
                lemma_first_break_is(rest, i - start);
                assert(rest.subrange(0, i - start) =~= line@);
                assert(rest.subrange(i - start + 1, rest.len() as int) =~= text@.subrange(
                    i + 1,
                    text@.len() as int,
                ));
            }
            if line.len() > 0 && line[line.len() - 1] == '\r' {
                let _ = line.pop();
            }
            take_line(&mut finished, &mut open, &line, Ghost(seen));
            proof {
                let next = seen.push(line@);
                assert(lines(text@) =~= next + lines(text@.subrange(i + 1, text@.len() as int)));
                seen = next;
                start = i + 1;
            }
            line.clear();
            assert(line@ =~= text@.subrange(start, i + 1));
        } else {
            line.push(c);
            assert(line@ =~= text@.subrange(start, i + 1));
        }
    }
    let ghost rest = text@.subrange(start, text@.len() as int);
    if line.len() > 0 {
        proof {
            lemma_first_break_is(rest, rest.len() as int);
            assert(rest =~= line@);
            assert(lines(text@) =~= seen.push(line@));
        }
        take_line(&mut finished, &mut open, &line, Ghost(seen));
    } else {
        assert(lines(text@) =~= seen);
    }
    finished.push(open);
    proof {
        lemma_chunk_count(lines(text@));
    }
    finished
}

} // verus!
