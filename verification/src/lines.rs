//! The mathematical model of splitting text into lines.
//!
//! A line is a maximal run of characters not containing a line terminator,
//! including the possibly-empty trailing run after the last terminator — so
//! text that ends with a terminator has a final empty line, while empty text
//! has no lines at all. A line terminated by `'\n'` loses a final `'\r'` as
//! well, so both `"\n"` and `"\r\n"` endings are handled; a bare final `'\r'`
//! with no following `'\n'` stays part of its line.

use vstd::prelude::*;

verus! {

/// The index of the first `'\n'` in `s`, or `s.len()` if there is none.
pub open spec fn first_newline(s: Seq<char>) -> int
    decreases s.len(),
{
    if s.len() == 0 {
        0
    } else if s[0] == '\n' {
        0
    } else {
        1 + first_newline(s.drop_first())
    }
}

/// A terminated line loses one final carriage return, if it has one.
pub open spec fn strip_carriage_return(line: Seq<char>) -> Seq<char> {
    if line.len() > 0 && line[line.len() - 1] == '\r' {
        line.drop_last()
    } else {
        line
    }
}

/// The lines of `text`: the run before the first newline, then the lines of
/// what follows that newline. The remainder after a final newline, empty or
/// not, is itself a line, so `split_lines` of empty text is one empty line.
pub open spec fn split_lines(text: Seq<char>) -> Seq<Seq<char>>
    decreases text.len(),
    via split_lines_decreases
{
    let i = first_newline(text);
    if i < text.len() {
        seq![strip_carriage_return(text.take(i))] + split_lines(text.skip(i + 1))
    } else {
        seq![text]
    }
}

#[via_fn]
proof fn split_lines_decreases(text: Seq<char>) {
    lemma_first_newline_bounds(text);
}

/// The ordered sequence of lines of `text`; empty text has no lines.
pub open spec fn lines_of(text: Seq<char>) -> Seq<Seq<char>> {
    if text.len() == 0 {
        Seq::empty()
    } else {
        split_lines(text)
    }
}

/// `first_newline` is within bounds and no earlier character is a newline;
/// if it is within `s`, it points at a newline.
pub proof fn lemma_first_newline_bounds(s: Seq<char>)
    ensures
        0 <= first_newline(s) <= s.len(),
        forall|k: int| 0 <= k < first_newline(s) ==> s[k] != '\n',
        first_newline(s) < s.len() ==> s[first_newline(s)] == '\n',
    decreases s.len(),
{
    if s.len() == 0 {
    } else if s[0] == '\n' {
    } else {
        lemma_first_newline_bounds(s.drop_first());
        assert forall|k: int| 0 <= k < first_newline(s) implies s[k] != '\n' by {
            if k > 0 {
                assert(s.drop_first()[k - 1] != '\n');
            }
        }
    }
}

/// Any position `m` before which there is no newline, and which is either the
/// end of `s` or a newline, is exactly `first_newline(s)`.
pub proof fn lemma_first_newline_at(s: Seq<char>, m: int)
    requires
        0 <= m <= s.len(),
        forall|k: int| 0 <= k < m ==> s[k] != '\n',
        m < s.len() ==> s[m] == '\n',
    ensures
        first_newline(s) == m,
    decreases m,
{
    if m == 0 {
        if s.len() > 0 {
            assert(s[0] == '\n');
        }
    } else {
        assert(s[0] != '\n');
        assert forall|k: int| 0 <= k < m - 1 implies s.drop_first()[k] != '\n' by {
            assert(s[k + 1] != '\n');
        }
        if m - 1 < s.drop_first().len() {
            assert(s.drop_first()[m - 1] == s[m]);
        }
        lemma_first_newline_at(s.drop_first(), m - 1);
    }
}

} // verus!
