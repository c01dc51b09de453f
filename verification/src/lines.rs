//! Splitting a text into lines. A line ends at a `'\n'` terminator — a
//! `'\r'` standing right before the `'\n'` belongs to the terminator,
//! not to the line — a trailing unterminated line is included, and an
//! empty text has no lines.

use vstd::prelude::*;

verus! {

/// Index of the first `'\n'` in `t`, or `t.len()` if there is none.
pub open spec fn first_break(t: Seq<char>) -> nat
    decreases t.len(),
{
    if t.len() == 0 {
        0
    } else if t[0] == '\n' {
        0
    } else {
        1 + first_break(t.drop_first())
    }
}

/// The content of a terminated line: a final `'\r'` is part of a
/// `"\r\n"` terminator and is dropped; everything else stays.
pub open spec fn strip_cr(l: Seq<char>) -> Seq<char> {
    if l.len() > 0 && l.last() == '\r' {
        l.drop_last()
    } else {
        l
    }
}

/// The lines of `t`, in order of occurrence.
pub open spec fn lines_of(t: Seq<char>) -> Seq<Seq<char>>
    decreases t.len(),
{
    if t.len() == 0 {
        Seq::empty()
    } else {
        let i = first_break(t) as int;
        if i >= t.len() {
            seq![t]
        } else {
            seq![strip_cr(t.take(i))] + lines_of(t.skip(i + 1))
        }
    }
}

/// `first_break` really is the position of the first line terminator:
/// it is in bounds, everything before it is ordinary text, and it points
/// at a `'\n'` unless there is none at all.
pub proof fn lemma_first_break(t: Seq<char>)
    ensures
        first_break(t) <= t.len(),
        forall|j: int| 0 <= j < first_break(t) ==> t[j] != '\n',
        first_break(t) < t.len() ==> t[first_break(t) as int] == '\n',
    decreases t.len(),
{
    if t.len() == 0 {
    } else if t[0] == '\n' {
    } else {
        lemma_first_break(t.drop_first());
        assert forall|j: int| 0 <= j < first_break(t) implies t[j] != '\n' by {
            if j > 0 {
                assert(t[j] == t.drop_first()[j - 1]);
            }
        }
    }
}

/// A sequence without any `'\n'` has no break before its end.
pub proof fn lemma_first_break_none(t: Seq<char>)
    requires
        forall|j: int| 0 <= j < t.len() ==> t[j] != '\n',
    ensures
        first_break(t) == t.len(),
    decreases t.len(),
{
    if t.len() == 0 {
    } else {
        assert(forall|j: int|
            0 <= j < t.drop_first().len() ==> #[trigger] t.drop_first()[j] == t[j + 1]);
        lemma_first_break_none(t.drop_first());
    }
}

/// If a `'\n'` occurs at position `k`, the first break is at or before `k`.
pub proof fn lemma_first_break_at_most(t: Seq<char>, k: int)
    requires
        0 <= k < t.len(),
        t[k] == '\n',
    ensures
        first_break(t) <= k,
{
    lemma_first_break(t);
    if first_break(t) > k {
        assert(t[k] != '\n');
    }
}

/// The first break of a prefix that reaches past the first break of the
/// whole is the same position.
pub proof fn lemma_first_break_take(t: Seq<char>, n: int)
    requires
        first_break(t) < n <= t.len(),
    ensures
        first_break(t.take(n)) == first_break(t),
    decreases t.len(),
{
    lemma_first_break(t);
    let p = t.take(n);
    assert(p[first_break(t) as int] == '\n');
    lemma_first_break_at_most(p, first_break(t) as int);
    lemma_first_break(p);
    if first_break(p) < first_break(t) {
        assert(t[first_break(p) as int] == p[first_break(p) as int]);
    }
}

/// A nonempty text whose only `'\n'` is its last character is a single
/// line: everything before the terminator, less a terminator `'\r'`.
pub proof fn lemma_lines_of_terminated(u: Seq<char>)
    requires
        u.len() > 0,
        u[u.len() - 1] == '\n',
        forall|j: int| 0 <= j < u.len() - 1 ==> u[j] != '\n',
    ensures
        lines_of(u) == seq![strip_cr(u.take(u.len() - 1))],
{
    lemma_first_break_at_most(u, u.len() - 1);
    lemma_first_break(u);
    assert(first_break(u) == u.len() - 1) by {
        if first_break(u) < u.len() - 1 {
            assert(u[first_break(u) as int] == '\n');
        }
    }
    let i = first_break(u) as int;
    assert(u.skip(i + 1) =~= Seq::<char>::empty());
    assert(lines_of(u.skip(i + 1)) == Seq::<Seq<char>>::empty());
    assert(lines_of(u) =~= seq![strip_cr(u.take(i))]);
}

/// A nonempty text without any `'\n'` is a single line: itself.
pub proof fn lemma_lines_of_unbroken(t: Seq<char>)
    requires
        t.len() > 0,
        forall|j: int| 0 <= j < t.len() ==> t[j] != '\n',
    ensures
        lines_of(t) == seq![t],
{
    lemma_first_break_none(t);
}

/// Splitting at a line boundary splits the lines: if position `s` is the
/// start of the text or stands right after a `'\n'`, the lines of `t` are
/// the lines of the part before `s` followed by the lines of the part
/// after.
pub proof fn lemma_lines_of_split(t: Seq<char>, s: int)
    requires
        0 <= s <= t.len(),
        s == 0 || t[s - 1] == '\n',
    ensures
        lines_of(t) == lines_of(t.take(s)) + lines_of(t.skip(s)),
    decreases t.len(),
{
    if s == 0 {
        assert(t.take(0) =~= Seq::<char>::empty());
        assert(t.skip(0) =~= t);
        assert(lines_of(t) =~= lines_of(t.take(0)) + lines_of(t.skip(0)));
    } else {
        lemma_first_break_at_most(t, s - 1);
        let i = first_break(t) as int;
        lemma_first_break(t);
        assert(i < t.len());
        let head = t.take(i);
        let rest = t.skip(i + 1);
        assert(lines_of(t) == seq![strip_cr(head)] + lines_of(rest));
        let p = t.take(s);
        lemma_first_break_take(t, s);
        assert(first_break(p) == i);
        lemma_first_break(p);
        if i + 1 == s {
            // The part before `s` is exactly the first line and its
            // terminator; the part after is the rest.
            lemma_lines_of_terminated(p);
            assert(p.take(p.len() - 1) =~= head);
            assert(t.skip(s) =~= rest);
            assert(lines_of(t) =~= lines_of(p) + lines_of(t.skip(s)));
        } else {
            // The split point lies beyond the first line: recurse on the
            // text after the first terminator.
            assert(i + 1 < s);
            assert(rest[s - i - 2] == t[s - 1]);
            lemma_lines_of_split(rest, s - i - 1);
            assert(p.take(i) =~= head);
            assert(p.skip(i + 1) =~= rest.take(s - i - 1));
            assert(lines_of(p) == seq![strip_cr(head)] + lines_of(rest.take(s - i - 1)));
            assert(rest.skip(s - i - 1) =~= t.skip(s));
            assert(lines_of(t) =~= lines_of(p) + lines_of(t.skip(s)));
        }
    }
}

/// Executable line splitting: the returned slices, viewed as character
/// sequences, are exactly `lines_of` the input.
pub fn split_lines<'a>(text: &'a str) -> (r: Vec<&'a str>)
    ensures
        r.deep_view() == lines_of(text@),
{
    let n = text.unicode_len();
    let mut r: Vec<&'a str> = Vec::new();
    let mut start: usize = 0;
    let mut i: usize = 0;
    while i < n
        invariant
            n == text@.len(),
            0 <= start <= i <= n,
            start == 0 || text@[start - 1] == '\n',
            forall|j: int| start <= j < i ==> text@[j] != '\n',
            r.deep_view() == lines_of(text@.take(start as int)),
        decreases n - i,
    {
        if text.get_char(i) == '\n' {
            let end: usize = if i > start && text.get_char(i - 1) == '\r' {
                i - 1
            } else {
                i
            };
            let line = text.substring_char(start, end);
            r.push(line);
            proof {
                let t = text@;
                let s0 = start as int;
                let s1 = i + 1;
                lemma_lines_of_split(t.take(s1), s0);
                assert(t.take(s1).take(s0) =~= t.take(s0));
                let tail = t.take(s1).skip(s0);
                assert(tail =~= t.subrange(s0, s1));
                assert(forall|j: int| 0 <= j < tail.len() - 1 ==> tail[j] != '\n');
                assert(tail[tail.len() - 1] == '\n');
                lemma_lines_of_terminated(tail);
                let content = t.subrange(s0, i as int);
                assert(tail.take(tail.len() - 1) =~= content);
                if i > start && t[i - 1] == '\r' {
                    assert(content.len() > 0 && content.last() == '\r');
                    assert(line@ == t.subrange(s0, i - 1));
                    assert(strip_cr(content) =~= line@);
                } else {
                    assert(line@ == content);
                    if content.len() > 0 {
                        assert(content.last() == t[i - 1]);
                    }
                    assert(strip_cr(content) == content);
                }
                assert(r.deep_view() =~= lines_of(t.take(s0)) + seq![strip_cr(content)]);
                assert(r.deep_view() == lines_of(t.take(s1)));
            }
            start = i + 1;
        }
        i = i + 1;
    }
    if start < n {
        let line = text.substring_char(start, n);
        r.push(line);
        proof {
            let t = text@;
            let s0 = start as int;
            lemma_lines_of_split(t, s0);
            let tail = t.skip(s0);
            assert(forall|j: int| 0 <= j < tail.len() ==> tail[j] != '\n');
            lemma_lines_of_unbroken(tail);
            assert(line@ == tail);
            assert(r.deep_view() =~= lines_of(t.take(s0)) + seq![tail]);
            assert(r.deep_view() == lines_of(t));
        }
    } else {
        proof {
            let t = text@;
            assert(t.take(start as int) =~= t);
        }
    }
    r
}

} // verus!
