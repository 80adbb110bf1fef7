//! The laws of the matcher, stated over the mathematical model and proved
//! once and for all.

use vstd::prelude::*;

use crate::lines::lines_of;
use crate::matcher::{
    emitted, lemma_rendered_concat, lemma_rendered_push, line_matches, matches_output, occurs_at,
    rendered,
};

verus! {

/// The output is the ordered concatenation of exactly the matching lines:
/// filter the lines of the text by pattern containment, terminate each kept
/// line with one newline, and concatenate; nothing else appears.
pub proof fn lemma_rendered_is_filtered(all_lines: Seq<Seq<char>>, pattern: Seq<char>)
    ensures
        rendered(all_lines, pattern) == all_lines.filter(
            |l: Seq<char>| line_matches(l, pattern),
        ).map_values(|l: Seq<char>| l.push('\n')).flatten(),
    decreases all_lines.len(),
{
    reveal(Seq::filter);
    let pred = |l: Seq<char>| line_matches(l, pattern);
    let terminate = |l: Seq<char>| l.push('\n');
    if all_lines.len() == 0 {
        assert(all_lines.filter(pred) == all_lines);
        assert(all_lines.map_values(terminate) =~= Seq::<Seq<char>>::empty());
    } else {
        let prefix = all_lines.drop_last();
        let last = all_lines.last();
        lemma_rendered_is_filtered(prefix, pattern);
        assert(all_lines =~= prefix.push(last));
        lemma_rendered_push(prefix, last, pattern);
        if pred(last) {
            assert(all_lines.filter(pred) == prefix.filter(pred).push(last));
            assert(all_lines.filter(pred).map_values(terminate) =~= prefix.filter(
                pred,
            ).map_values(terminate).push(terminate(last)));
            prefix.filter(pred).map_values(terminate).lemma_flatten_push(terminate(last));
            assert(emitted(last, pattern) == last.push('\n'));
        } else {
            assert(all_lines.filter(pred) == prefix.filter(pred));
            assert(emitted(last, pattern) == Seq::<char>::empty());
            assert(rendered(prefix, pattern) + Seq::<char>::empty() =~= rendered(
                prefix,
                pattern,
            ));
        }
    }
}

/// For all content and pattern, the output equals the ordered concatenation
/// of every line of the content that contains the pattern, each followed by
/// a single newline, and no other lines.
pub proof fn lemma_output_characterized(text: Seq<char>, pattern: Seq<char>)
    ensures
        matches_output(text, pattern) == lines_of(text).filter(
            |l: Seq<char>| line_matches(l, pattern),
        ).map_values(|l: Seq<char>| l.push('\n')).flatten(),
{
    lemma_rendered_is_filtered(lines_of(text), pattern);
}

/// The empty pattern occurs in every line.
pub proof fn lemma_empty_pattern_matches(line: Seq<char>)
    ensures
        line_matches(line, Seq::<char>::empty()),
{
    assert(occurs_at(line, Seq::<char>::empty(), 0));
}

/// With the empty pattern the output is all lines of the content, in order,
/// each newline-terminated.
pub proof fn lemma_empty_pattern_selects_all(text: Seq<char>)
    ensures
        matches_output(text, Seq::<char>::empty()) == lines_of(text).map_values(
            |l: Seq<char>| l.push('\n'),
        ).flatten(),
{
    lemma_rendered_selects_all(lines_of(text));
}

/// Rendering with the empty pattern keeps every line.
proof fn lemma_rendered_selects_all(all_lines: Seq<Seq<char>>)
    ensures
        rendered(all_lines, Seq::<char>::empty()) == all_lines.map_values(
            |l: Seq<char>| l.push('\n'),
        ).flatten(),
    decreases all_lines.len(),
{
    let terminate = |l: Seq<char>| l.push('\n');
    if all_lines.len() == 0 {
        assert(all_lines.map_values(terminate) =~= Seq::<Seq<char>>::empty());
    } else {
        let prefix = all_lines.drop_last();
        let last = all_lines.last();
        lemma_rendered_selects_all(prefix);
        lemma_empty_pattern_matches(last);
        assert(all_lines =~= prefix.push(last));
        lemma_rendered_push(prefix, last, Seq::<char>::empty());
        assert(all_lines.map_values(terminate) =~= prefix.map_values(terminate).push(
            terminate(last),
        ));
        prefix.map_values(terminate).lemma_flatten_push(terminate(last));
        assert(emitted(last, Seq::<char>::empty()) == last.push('\n'));
    }
}

/// Empty content produces empty output, whatever the pattern.
pub proof fn lemma_empty_content(pattern: Seq<char>)
    ensures
        matches_output(Seq::<char>::empty(), pattern) == Seq::<char>::empty(),
{
    assert(lines_of(Seq::<char>::empty()) == Seq::<Seq<char>>::empty());
}

/// Rendering a prefix of one more line appends that line's contribution.
pub proof fn lemma_rendered_take_succ(all_lines: Seq<Seq<char>>, pattern: Seq<char>, k: int)
    requires
        0 <= k < all_lines.len(),
    ensures
        rendered(all_lines.take(k + 1), pattern) == rendered(all_lines.take(k), pattern)
            + emitted(all_lines[k], pattern),
{
    assert(all_lines.take(k + 1) =~= all_lines.take(k).push(all_lines[k]));
    lemma_rendered_push(all_lines.take(k), all_lines[k], pattern);
}

/// Rendering splits at any line boundary.
pub proof fn lemma_rendered_split(all_lines: Seq<Seq<char>>, pattern: Seq<char>, k: int)
    requires
        0 <= k <= all_lines.len(),
    ensures
        rendered(all_lines, pattern) == rendered(all_lines.take(k), pattern) + rendered(
            all_lines.skip(k),
            pattern,
        ),
{
    assert(all_lines =~= all_lines.take(k) + all_lines.skip(k));
    lemma_rendered_concat(all_lines.take(k), all_lines.skip(k), pattern);
}

/// Order preservation: when lines `i` and `j` both match and `i` precedes
/// `j`, line `i`'s newline-terminated copy occupies an earlier stretch of the
/// output than line `j`'s.
pub proof fn lemma_order_preserved(all_lines: Seq<Seq<char>>, pattern: Seq<char>, i: int, j: int)
    requires
        0 <= i < j < all_lines.len(),
        line_matches(all_lines[i], pattern),
        line_matches(all_lines[j], pattern),
    ensures
        rendered(all_lines.take(i + 1), pattern).len() <= rendered(
            all_lines.take(j),
            pattern,
        ).len(),
        rendered(all_lines, pattern).subrange(
            rendered(all_lines.take(i), pattern).len() as int,
            rendered(all_lines.take(i + 1), pattern).len() as int,
        ) == all_lines[i].push('\n'),
        rendered(all_lines, pattern).subrange(
            rendered(all_lines.take(j), pattern).len() as int,
            rendered(all_lines.take(j + 1), pattern).len() as int,
        ) == all_lines[j].push('\n'),
{
    lemma_rendered_take_succ(all_lines, pattern, i);
    lemma_rendered_take_succ(all_lines, pattern, j);
    assert(all_lines.take(j) =~= all_lines.take(i + 1) + all_lines.subrange(i + 1, j));
    lemma_rendered_concat(all_lines.take(i + 1), all_lines.subrange(i + 1, j), pattern);
    lemma_rendered_split(all_lines, pattern, i + 1);
    lemma_rendered_split(all_lines, pattern, j + 1);
    assert(emitted(all_lines[i], pattern) == all_lines[i].push('\n'));
    assert(emitted(all_lines[j], pattern) == all_lines[j].push('\n'));
    assert(rendered(all_lines, pattern).subrange(
        rendered(all_lines.take(i), pattern).len() as int,
        rendered(all_lines.take(i + 1), pattern).len() as int,
    ) =~= all_lines[i].push('\n'));
    assert(rendered(all_lines, pattern).subrange(
        rendered(all_lines.take(j), pattern).len() as int,
        rendered(all_lines.take(j + 1), pattern).len() as int,
    ) =~= all_lines[j].push('\n'));
}

/// Idempotence of the sink mapping: two runs with identical content and
/// pattern, into sinks whose prior contents agree, leave the sinks with
/// identical contents — what is written is a function of content and pattern
/// alone.
pub proof fn lemma_runs_agree(
    text: Seq<char>,
    pattern: Seq<char>,
    before_a: Seq<char>,
    after_a: Seq<char>,
    before_b: Seq<char>,
    after_b: Seq<char>,
)
    requires
        before_a == before_b,
        after_a == before_a + matches_output(text, pattern),
        after_b == before_b + matches_output(text, pattern),
    ensures
        after_a == after_b,
{
}

/// `a` is an ASCII letter and `b` the same letter in the opposite case.
pub open spec fn swaps_ascii_case(a: char, b: char) -> bool {
    ||| ('a' <= a <= 'z' && b as int == a as int - 32)
    ||| ('A' <= a <= 'Z' && b as int == a as int + 32)
}

/// `p` and `q` are the same length, agree except for letter case, and differ
/// in case somewhere.
pub open spec fn differs_only_in_case(p: Seq<char>, q: Seq<char>) -> bool {
    &&& p.len() == q.len()
    &&& forall|k: int| 0 <= k < p.len() ==> p[k] == q[k] || swaps_ascii_case(p[k], q[k])
    &&& exists|k: int| 0 <= k < p.len() && swaps_ascii_case(p[k], q[k])
}

/// Case sensitivity: where a pattern occurs, a variant of it differing only
/// in letter case does not occur.
pub proof fn lemma_case_sensitive(line: Seq<char>, p: Seq<char>, q: Seq<char>, at: int)
    requires
        occurs_at(line, p, at),
        differs_only_in_case(p, q),
    ensures
        !occurs_at(line, q, at),
{
    let k = choose|k: int| 0 <= k < p.len() && swaps_ascii_case(p[k], q[k]);
    assert(p[k] != q[k]);
    assert(line[at + k] == p[k]);
    if occurs_at(line, q, at) {
        assert(line[at + k] == q[k]);
    }
}

} // verus!
