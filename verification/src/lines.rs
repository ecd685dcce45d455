//! What the lines of a text are: the mathematical model that the scanner
//! and the accessors are specified against.
//!
//! A text is a sequence of bytes. A line ends at a line feed; a carriage
//! return directly before that line feed belongs to the terminator. Bytes
//! after the last line feed form one more line, kept as they are.

use vstd::prelude::*;

verus! {

/// The line feed byte.
pub const LF: u8 = 10;

/// The carriage return byte.
pub const CR: u8 = 13;

/// Index of the first line feed in `s`, or `s.len()` when there is none.
pub open spec fn first_newline(s: Seq<u8>) -> int
    decreases s.len(),
{
    if s.len() == 0 {
        0
    } else if s[0] == LF {
        0
    } else {
        1 + first_newline(s.drop_first())
    }
}

/// Whether `s` holds a line feed.
pub open spec fn has_newline(s: Seq<u8>) -> bool {
    first_newline(s) < s.len()
}

/// Number of line feeds in `s`.
pub open spec fn newline_count(s: Seq<u8>) -> nat
    decreases s.len(),
{
    if s.len() == 0 {
        0
    } else {
        newline_count(s.drop_last()) + if s.last() == LF {
            1nat
        } else {
            0nat
        }
    }
}

/// `s` without one trailing carriage return.
pub open spec fn strip_cr(s: Seq<u8>) -> Seq<u8> {
    if s.len() > 0 && s.last() == CR {
        s.drop_last()
    } else {
        s
    }
}

/// Whether `s` ends on a line boundary: it is empty or its last byte is a
/// line feed.
pub open spec fn terminated(s: Seq<u8>) -> bool {
    s.len() == 0 || s.last() == LF
}

/// The lines of a text.
pub open spec fn split_lines(content: Seq<u8>) -> Seq<Seq<u8>>
    decreases content.len(),
{
    if content.len() == 0 {
        Seq::empty()
    } else {
        let i = first_newline(content);
        if 0 <= i < content.len() {
            seq![strip_cr(content.take(i))] + split_lines(content.skip(i + 1))
        } else {
            seq![content]
        }
    }
}

/// Length of the part of `s` that consists of complete lines: the index
/// behind its last line feed, or 0.
pub open spec fn complete_len(s: Seq<u8>) -> int
    decreases s.len(),
{
    if s.len() == 0 {
        0
    } else if s.last() == LF {
        s.len() as int
    } else {
        complete_len(s.drop_last())
    }
}

/// The complete lines of a text that may still go on: the lines that end
/// with a line feed.
pub open spec fn complete_lines(s: Seq<u8>) -> Seq<Seq<u8>> {
    split_lines(s.take(complete_len(s)))
}

/// The lines numbered `start` up to, and without, `start + count`, where the
/// first line has number 1.
pub open spec fn window<T>(lines: Seq<T>, start: nat, count: nat) -> Seq<T> {
    let lo = window_lo(lines.len(), start);
    let hi = window_hi(lines.len(), start, count);
    lines.subrange(lo, hi)
}

/// Index in the file's lines at which the window begins.
pub open spec fn window_lo(total: nat, start: nat) -> int {
    let first = if start == 0 {
        0
    } else {
        start - 1
    };
    if first < total {
        first
    } else {
        total as int
    }
}

/// Index in the file's lines at which the window ends (exclusive).
pub open spec fn window_hi(total: nat, start: nat, count: nat) -> int {
    let lo = window_lo(total, start);
    let end = start + count - 1;
    if end < lo {
        lo
    } else if end < total {
        end
    } else {
        total as int
    }
}

/// `first_newline` is the least index of a line feed.
pub proof fn lemma_first_newline(s: Seq<u8>)
    ensures
        0 <= first_newline(s) <= s.len(),
        forall|j: int| 0 <= j < first_newline(s) ==> s[j] != LF,
        first_newline(s) < s.len() ==> s[first_newline(s)] == LF,
    decreases s.len(),
{
    if s.len() > 0 && s[0] != LF {
        let rest = s.drop_first();
        lemma_first_newline(rest);
        assert forall|j: int| 0 <= j < first_newline(s) implies s[j] != LF by {
            if j > 0 {
                assert(s[j] == rest[j - 1]);
            }
        }
    }
}

/// An index before which there is no line feed, and which is the end of `s`
/// or holds a line feed, is `first_newline(s)`.
pub proof fn lemma_first_newline_is(s: Seq<u8>, k: int)
    requires
        0 <= k <= s.len(),
        forall|j: int| 0 <= j < k ==> s[j] != LF,
        k < s.len() ==> s[k] == LF,
    ensures
        first_newline(s) == k,
{
    lemma_first_newline(s);
}

/// A text that ends with a line feed holds one.
pub proof fn lemma_terminated_has_newline(s: Seq<u8>)
    requires
        s.len() > 0,
        terminated(s),
    ensures
        has_newline(s),
{
    lemma_first_newline(s);
}

/// Splitting commutes with concatenation at a line boundary: the lines of
/// `a + b` are the lines of `a` followed by the lines of `b`, when `a` ends
/// on a line boundary.
pub proof fn lemma_split_lines_concat(a: Seq<u8>, b: Seq<u8>)
    requires
        terminated(a),
    ensures
        split_lines(a + b) == split_lines(a) + split_lines(b),
    decreases a.len(),
{
    if a.len() == 0 {
        assert(a + b =~= b);
        assert(split_lines(a) + split_lines(b) =~= split_lines(b));
    } else {
        let i = first_newline(a);
        lemma_first_newline(a);
        lemma_terminated_has_newline(a);
        let ab = a + b;
        assert forall|j: int| 0 <= j < i implies ab[j] != LF by {
            assert(ab[j] == a[j]);
        }
        assert(ab[i] == a[i]);
        lemma_first_newline_is(ab, i);
        assert(ab.take(i) =~= a.take(i));
        let rest = a.skip(i + 1);
        assert(ab.skip(i + 1) =~= rest + b);
        assert(terminated(rest)) by {
            if rest.len() > 0 {
                assert(rest.last() == a.last());
            }
        }
        lemma_split_lines_concat(rest, b);
        assert(split_lines(ab) =~= split_lines(a) + split_lines(b));
    }
}

/// A text whose only line feed is its last byte is one line: the bytes
/// before the line feed, without a carriage return at their end.
pub proof fn lemma_split_lines_single(s: Seq<u8>)
    requires
        s.len() > 0,
        first_newline(s) == s.len() - 1,
    ensures
        split_lines(s) == seq![strip_cr(s.drop_last())],
{
    let i = first_newline(s);
    assert(split_lines(s.skip(i + 1)) =~= Seq::<Seq<u8>>::empty());
}

/// Appending one terminated line to a text that ends on a line boundary
/// appends one line to its lines.
pub proof fn lemma_split_lines_push(done: Seq<u8>, pending: Seq<u8>)
    requires
        terminated(done),
        has_newline(pending),
    ensures
        split_lines(done + pending.take(first_newline(pending) + 1)) == split_lines(done).push(
            strip_cr(pending.take(first_newline(pending))),
        ),
{
    let i = first_newline(pending);
    lemma_first_newline(pending);
    let piece = pending.take(i + 1);
    lemma_first_newline_is(piece, i);
    lemma_split_lines_single(piece);
    assert(piece.drop_last() =~= pending.take(i));
    lemma_split_lines_concat(done, piece);
}

/// Appending a last, unterminated fragment to a text that ends on a line
/// boundary appends the fragment as one line.
pub proof fn lemma_split_lines_last(done: Seq<u8>, fragment: Seq<u8>)
    requires
        terminated(done),
        !has_newline(fragment),
        fragment.len() > 0,
    ensures
        split_lines(done + fragment) == split_lines(done).push(fragment),
{
    lemma_split_lines_concat(done, fragment);
}

/// The number of lines of a text is the number of its line feeds, and one
/// more when bytes follow the last line feed.
pub proof fn lemma_line_count(content: Seq<u8>)
    ensures
        split_lines(content).len() == newline_count(content) + if terminated(content) {
            0nat
        } else {
            1nat
        },
    decreases content.len(),
{
    if content.len() > 0 {
        let i = first_newline(content);
        lemma_first_newline(content);
        if i < content.len() {
            let head = content.take(i + 1);
            let rest = content.skip(i + 1);
            lemma_line_count(rest);
            assert(content =~= head + rest);
            lemma_newline_count_concat(head, rest);
            assert(newline_count(head) == 1) by {
                assert(head.drop_last() =~= content.take(i));
                lemma_newline_count_none(content.take(i));
            }
        } else {
            lemma_newline_count_none(content);
        }
    }
}

/// A text without a line feed has zero line feeds.
pub proof fn lemma_newline_count_none(s: Seq<u8>)
    requires
        forall|j: int| 0 <= j < s.len() ==> s[j] != LF,
    ensures
        newline_count(s) == 0,
    decreases s.len(),
{
    if s.len() > 0 {
        lemma_newline_count_none(s.drop_last());
    }
}

/// Line feeds of a concatenation are those of its parts.
pub proof fn lemma_newline_count_concat(a: Seq<u8>, b: Seq<u8>)
    ensures
        newline_count(a + b) == newline_count(a) + newline_count(b),
    decreases b.len(),
{
    if b.len() == 0 {
        assert(a + b =~= a);
    } else {
        assert((a + b).drop_last() =~= a + b.drop_last());
        lemma_newline_count_concat(a, b.drop_last());
    }
}

/// A text of complete lines has as many lines as line feeds; one that is
/// followed by an unterminated fragment has exactly one line more.
pub proof fn lemma_count_complete_and_partial(complete: Seq<u8>, fragment: Seq<u8>)
    requires
        terminated(complete),
        fragment.len() > 0,
        !has_newline(fragment),
    ensures
        split_lines(complete).len() == newline_count(complete),
        split_lines(complete + fragment).len() == split_lines(complete).len() + 1,
{
    lemma_line_count(complete);
    lemma_split_lines_last(complete, fragment);
}

/// The complete part of a text ends on a line boundary, and no line feed
/// follows it.
pub proof fn lemma_complete_len(s: Seq<u8>)
    ensures
        0 <= complete_len(s) <= s.len(),
        terminated(s.take(complete_len(s))),
        !has_newline(s.skip(complete_len(s))),
        forall|j: int| complete_len(s) <= j < s.len() ==> s[j] != LF,
    decreases s.len(),
{
    if s.len() == 0 {
        assert(s.skip(0) =~= s);
    } else if s.last() == LF {
        assert(s.take(s.len() as int) =~= s);
        assert(s.skip(s.len() as int) =~= Seq::<u8>::empty());
    } else {
        let front = s.drop_last();
        lemma_complete_len(front);
        let k = complete_len(front);
        assert(s.take(k) =~= front.take(k));
        let tail = s.skip(k);
        assert forall|j: int| k <= j < s.len() implies s[j] != LF by {
            if j < front.len() {
                assert(s[j] == front[j]);
            }
        }
        assert forall|j: int| 0 <= j < tail.len() implies tail[j] != LF by {
            assert(tail[j] == s[k + j]);
        }
        lemma_first_newline_is(tail, tail.len() as int);
    }
}

/// A text cut behind a line feed, with no line feed in what follows, is cut
/// at the end of its complete part.
pub proof fn lemma_complete_len_is(done: Seq<u8>, rest: Seq<u8>)
    requires
        terminated(done),
        !has_newline(rest),
    ensures
        complete_len(done + rest) == done.len(),
    decreases rest.len(),
{
    let s = done + rest;
    if rest.len() == 0 {
        assert(s =~= done);
    } else {
        lemma_first_newline(rest);
        assert(s.last() == rest.last());
        assert(rest[rest.len() - 1] != LF);
        let shorter = rest.drop_last();
        assert(s.drop_last() =~= done + shorter);
        assert forall|j: int| 0 <= j < shorter.len() implies shorter[j] != LF by {
            assert(shorter[j] == rest[j]);
        }
        lemma_first_newline_is(shorter, shorter.len() as int);
        lemma_complete_len_is(done, shorter);
    }
}

/// A text has as many complete lines as line feeds.
pub proof fn lemma_complete_lines_len(s: Seq<u8>)
    ensures
        complete_lines(s).len() == newline_count(s),
{
    lemma_complete_len(s);
    let k = complete_len(s);
    let done = s.take(k);
    let rest = s.skip(k);
    assert(s =~= done + rest);
    lemma_newline_count_concat(done, rest);
    lemma_newline_count_none(rest);
    lemma_line_count(done);
}

/// Whatever follows a text, its complete lines stay the first lines: the
/// lines of `s + more` are the complete lines of `s`, followed by the lines
/// of what stands behind them.
pub proof fn lemma_complete_lines_stay(s: Seq<u8>, more: Seq<u8>)
    ensures
        0 <= complete_len(s) <= s.len(),
        split_lines(s + more) == complete_lines(s) + split_lines(s.skip(complete_len(s)) + more),
{
    lemma_complete_len(s);
    let k = complete_len(s);
    assert(s + more =~= s.take(k) + (s.skip(k) + more));
    lemma_split_lines_concat(s.take(k), s.skip(k) + more);
}

/// A window that starts within the file, or right behind its last line,
/// holds `min(count, total - start + 1)` lines, and its `j`-th line is line
/// `start + j` of the file.
pub proof fn lemma_window<T>(lines: Seq<T>, start: nat, count: nat)
    requires
        1 <= start <= lines.len() + 1,
    ensures
        window(lines, start, count).len() == if count <= lines.len() - start + 1 {
            count as int
        } else {
            lines.len() - start + 1
        },
        forall|j: int|
            0 <= j < window(lines, start, count).len() ==> window(lines, start, count)[j]
                == lines[start - 1 + j],
{
}

} // verus!
