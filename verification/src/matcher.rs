//! The line matcher: write to a sink, in order, every line of a text that
//! contains a literal pattern as a contiguous substring.

use vstd::prelude::*;

use crate::lines::{lemma_first_newline_at, lines_of, split_lines, strip_carriage_return};
use crate::sink::{Sink, SinkError};

verus! {

/// `pattern` occurs in `line` starting at position `i`.
pub open spec fn occurs_at(line: Seq<char>, pattern: Seq<char>, i: int) -> bool {
    &&& 0 <= i
    &&& i + pattern.len() <= line.len()
    &&& forall|k: int| 0 <= k < pattern.len() ==> line[i + k] == pattern[k]
}

/// `line` contains `pattern` as a contiguous substring (case-sensitive,
/// character-exact; the empty pattern occurs in every line).
pub open spec fn line_matches(line: Seq<char>, pattern: Seq<char>) -> bool {
    exists|i: int| occurs_at(line, pattern, i)
}

/// What one line contributes to the output: the line followed by exactly one
/// newline if it matches, nothing otherwise.
pub open spec fn emitted(line: Seq<char>, pattern: Seq<char>) -> Seq<char> {
    if line_matches(line, pattern) {
        line.push('\n')
    } else {
        Seq::empty()
    }
}

/// The ordered concatenation of the contributions of each line in turn.
pub open spec fn rendered(lines: Seq<Seq<char>>, pattern: Seq<char>) -> Seq<char>
    decreases lines.len(),
{
    if lines.len() == 0 {
        Seq::empty()
    } else {
        emitted(lines[0], pattern) + rendered(lines.drop_first(), pattern)
    }
}

/// The whole output of a search: every line of `text` that contains
/// `pattern`, in source order, each followed by one newline, and nothing
/// else.
pub open spec fn matches_output(text: Seq<char>, pattern: Seq<char>) -> Seq<char> {
    rendered(lines_of(text), pattern)
}

/// Rendering distributes over concatenation of line sequences.
pub proof fn lemma_rendered_concat(a: Seq<Seq<char>>, b: Seq<Seq<char>>, pattern: Seq<char>)
    ensures
        rendered(a + b, pattern) == rendered(a, pattern) + rendered(b, pattern),
    decreases a.len(),
{
    if a.len() == 0 {
        assert(a + b =~= b);
        assert(rendered(a, pattern) + rendered(b, pattern) =~= rendered(b, pattern));
    } else {
        assert((a + b).drop_first() =~= a.drop_first() + b);
        lemma_rendered_concat(a.drop_first(), b, pattern);
        assert((a + b)[0] == a[0]);
        assert(emitted(a[0], pattern) + (rendered(a.drop_first(), pattern) + rendered(b, pattern))
            =~= (emitted(a[0], pattern) + rendered(a.drop_first(), pattern)) + rendered(
            b,
            pattern,
        ));
    }
}

/// Rendering a single line yields exactly its contribution.
pub proof fn lemma_rendered_singleton(line: Seq<char>, pattern: Seq<char>)
    ensures
        rendered(seq![line], pattern) == emitted(line, pattern),
{
    assert(seq![line].len() == 1);
    assert(seq![line][0] == line);
    assert(seq![line].drop_first() =~= Seq::<Seq<char>>::empty());
    assert(rendered(seq![line], pattern) == emitted(line, pattern) + rendered(
        Seq::<Seq<char>>::empty(),
        pattern,
    ));
    assert(emitted(line, pattern) + Seq::<char>::empty() =~= emitted(line, pattern));
}

/// Appending one line to a line sequence appends its contribution to the
/// rendering.
pub proof fn lemma_rendered_push(lines: Seq<Seq<char>>, line: Seq<char>, pattern: Seq<char>)
    ensures
        rendered(lines.push(line), pattern) == rendered(lines, pattern) + emitted(line, pattern),
{
    assert(lines.push(line) =~= lines + seq![line]);
    lemma_rendered_concat(lines, seq![line], pattern);
    lemma_rendered_singleton(line, pattern);
}

/// Does `pattern` occur in `line` starting at position `at`?
fn match_at(line: &str, pattern: &str, at: usize) -> (r: bool)
    requires
        at + pattern@.len() <= line@.len(),
        line@.len() <= usize::MAX,
    ensures
        r == occurs_at(line@, pattern@, at as int),
{
    let pattern_len: usize = pattern.unicode_len();
    let mut k: usize = 0;
    while k < pattern_len
        invariant
            at + pattern_len <= line@.len() <= usize::MAX,
            pattern_len == pattern@.len(),
            k <= pattern_len,
            forall|t: int| 0 <= t < k ==> line@[at + t] == #[trigger] pattern@[t],
        decreases pattern_len - k,
    {
        if line.get_char(at + k) != pattern.get_char(k) {
            assert(line@[at + k] != pattern@[k as int]);
            return false;
        }
        k += 1;
    }
    true
}

/// Does `line` contain `pattern` as a contiguous substring?
fn line_contains(line: &str, pattern: &str) -> (r: bool)
    ensures
        r == line_matches(line@, pattern@),
{
    let line_len: usize = line.unicode_len();
    let pattern_len: usize = pattern.unicode_len();
    if pattern_len > line_len {
        assert(forall|i: int| !occurs_at(line@, pattern@, i));
        return false;
    }
    let mut j: usize = 0;
    while j <= line_len - pattern_len
        invariant
            pattern_len <= line_len,
            line_len == line@.len(),
            pattern_len == pattern@.len(),
            j <= line_len - pattern_len + 1,
            forall|i: int| 0 <= i < j ==> !occurs_at(line@, pattern@, i),
        decreases line_len - pattern_len - j + 1,
    {
        if match_at(line, pattern, j) {
            return true;
        }
        j += 1;
    }
    assert forall|i: int| !occurs_at(line@, pattern@, i) by {
        if 0 <= i <= line_len - pattern_len {
            assert(!occurs_at(line@, pattern@, i));
        }
    }
    false
}

/// Write every line of `content` that contains `pattern` to `writer`, in
/// source order, each followed by exactly one newline. On the first rejected
/// write the search stops at once and reports failure; every matching line
/// before the rejected one has been written, and nothing else.
pub fn find_matches<S: Sink>(content: &str, pattern: &str, writer: &mut S) -> (r: Result<
    (),
    SinkError,
>)
    ensures
        old(writer).infallible() ==> r is Ok,
        final(writer).infallible() == old(writer).infallible(),
        r is Ok ==> final(writer).sunk() == old(writer).sunk() + matches_output(
            content@,
            pattern@,
        ),
        r is Err ==> exists|k: int|
            {
                &&& 0 <= k < lines_of(content@).len()
                &&& line_matches(#[trigger] lines_of(content@)[k], pattern@)
                &&& final(writer).sunk() == old(writer).sunk() + rendered(
                    lines_of(content@).take(k),
                    pattern@,
                )
            },
{
    let ghost text = content@;
    let ghost pat = pattern@;
    let ghost sunk_at_entry = writer.sunk();
    let ghost mut lines_done: Seq<Seq<char>> = Seq::empty();
    let total: usize = content.unicode_len();
    if total == 0 {
        proof {
            assert(old(writer).sunk() + matches_output(text, pat) =~= old(writer).sunk());
        }
        return Ok(());
    }
    let mut start: usize = 0;
    let mut done = false;
    proof {
        assert(sunk_at_entry == old(writer).sunk());
        assert(text.skip(0) =~= text);
        assert(lines_done + split_lines(text) =~= lines_of(text));
        assert(sunk_at_entry + rendered(lines_done, pat) =~= sunk_at_entry);
    }
    while !done
        invariant
            total == text.len(),
            text == content@,
            pat == pattern@,
            sunk_at_entry == old(writer).sunk(),
            writer.infallible() == old(writer).infallible(),
            writer.sunk() == sunk_at_entry + rendered(lines_done, pat),
            !done ==> start <= total,
            !done ==> lines_of(text) == lines_done + split_lines(text.skip(start as int)),
            done ==> lines_of(text) == lines_done,
        decreases total - start + (if done {
            0int
        } else {
            1int
        }),
    {
        let mut end: usize = start;
        while end < total && content.get_char(end) != '\n'
            invariant
                start <= end <= total,
                total == text.len(),
                text == content@,
                forall|k: int| start <= k < end ==> text[k] != '\n',
            decreases total - end,
        {
            end += 1;
        }
        let mut line_end: usize = end;
        if end < total && line_end > start && content.get_char(line_end - 1) == '\r' {
            line_end -= 1;
        }
        let line = content.substring_char(start, line_end);
        proof {
            let suffix = text.skip(start as int);
            assert forall|k: int| 0 <= k < end - start implies suffix[k] != '\n' by {
                assert(text[start + k] != '\n');
            }
            lemma_first_newline_at(suffix, end - start);
            if end < total {
                assert(suffix.take(end - start) =~= text.subrange(start as int, end as int));
                assert(strip_carriage_return(text.subrange(start as int, end as int)) =~= line@);
                assert(suffix.skip(end - start + 1) =~= text.skip(end + 1));
                assert(split_lines(suffix) == seq![line@] + split_lines(text.skip(end + 1)));
                assert(lines_done + split_lines(suffix) =~= lines_done.push(line@) + split_lines(
                    text.skip(end + 1),
                ));
            } else {
                assert(suffix =~= text.subrange(start as int, line_end as int));
                assert(split_lines(suffix) == seq![suffix]);
                assert(split_lines(suffix) =~= seq![line@]);
                assert(lines_done + split_lines(suffix) =~= lines_done.push(line@));
            }
            assert(split_lines(suffix)[0] == line@);
        }
        if line_contains(line, pattern) {
            match writer.write_line(line) {
                Ok(()) => {
                    proof {
                        lemma_rendered_push(lines_done, line@, pat);
                    }
                },
                Err(e) => {
                    proof {
                        let k = lines_done.len() as int;
                        assert(lines_of(content@)[k] == line@);
                        assert(lines_of(text).take(k) =~= lines_done);
                        assert(line_matches(lines_of(content@)[k], pattern@));
                        assert(writer.sunk() == old(writer).sunk() + rendered(
                            lines_of(content@).take(k),
                            pattern@,
                        ));
                    }
                    return Err(e);
                },
            }
        } else {
            proof {
                lemma_rendered_push(lines_done, line@, pat);
                assert(rendered(lines_done.push(line@), pat) =~= rendered(lines_done, pat));
            }
        }
        proof {
            lines_done = lines_done.push(line@);
        }
        if end < total {
            start = end + 1;
        } else {
            done = true;
        }
    }
    Ok(())
}

} // verus!
