//! Splitting text into lines and joining lines into text.

use vstd::prelude::*;

verus! {

/// The contents of a vector of lines.
pub open spec fn rows(v: Seq<Vec<char>>) -> Seq<Seq<char>> {
    Seq::new(v.len(), |i: int| v[i]@)
}

/// The text of the line that occupies `s[start..end]`, where `s[end]` is
/// the line feed that ends it: a carriage return right before the line
/// feed belongs to the line ending.
pub open spec fn terminated_line(s: Seq<char>, start: int, end: int) -> Seq<char> {
    if start < end && s[end - 1] == '\r' {
        s.subrange(start, end - 1)
    } else {
        s.subrange(start, end)
    }
}

/// The lines of `s` from the line that begins at `start`, where the
/// characters in `s[start..at]` are known to hold no line feed.
pub open spec fn lines_from(s: Seq<char>, start: int, at: int) -> Seq<Seq<char>>
    decreases s.len() - at,
{
    if at < start || start < 0 {
        Seq::empty()
    } else if at >= s.len() {
        if start < s.len() {
            seq![s.subrange(start, s.len() as int)]
        } else {
            Seq::empty()
        }
    } else if s[at] == '\n' {
        seq![terminated_line(s, start, at)] + lines_from(s, at + 1, at + 1)
    } else {
        lines_from(s, start, at + 1)
    }
}

/// The lines of `s`. A line ends at a line feed, or at a carriage return
/// followed by a line feed, or at the end of the text; the line ending is
/// not part of the line, and text that ends with a line ending has no
/// empty last line.
pub open spec fn lines_of(s: Seq<char>) -> Seq<Seq<char>> {
    lines_from(s, 0, 0)
}

/// The lines with a line feed between each two neighbours.
pub open spec fn joined(lines: Seq<Seq<char>>) -> Seq<char>
    decreases lines.len(),
{
    if lines.len() == 0 {
        Seq::empty()
    } else if lines.len() == 1 {
        lines[0]
    } else {
        joined(lines.drop_last()) + seq!['\n'] + lines.last()
    }
}

/// The parts with `sep` between each two neighbours.
pub open spec fn separated(parts: Seq<Seq<char>>, sep: Seq<char>) -> Seq<char>
    decreases parts.len(),
{
    if parts.len() == 0 {
        Seq::empty()
    } else if parts.len() == 1 {
        parts[0]
    } else {
        separated(parts.drop_last(), sep) + sep + parts.last()
    }
}

/// The lines of `s`.
pub fn split_lines(s: &Vec<char>) -> (r: Vec<Vec<char>>)
    ensures
        rows(r@) == lines_of(s@),
{
    let mut out: Vec<Vec<char>> = Vec::new();
    let mut start: usize = 0;
    let mut at: usize = 0;
    assert(rows(out@) =~= Seq::<Seq<char>>::empty());
    assert(rows(out@) + lines_from(s@, 0, 0) =~= lines_from(s@, 0, 0));
    while at < s.len()
        invariant
            start <= at <= s.len(),
            lines_of(s@) == rows(out@) + lines_from(s@, start as int, at as int),
        decreases s.len() - at,
    {
        if s[at] == '\n' {
            let ghost before = rows(out@);
            let end: usize = if start < at && s[at - 1] == '\r' {
                at - 1
            } else {
                at
            };
            let line = crate::text::slice_of(s, start, end);
            assert(line@ == terminated_line(s@, start as int, at as int));
            out.push(line);
            assert(rows(out@) =~= before.push(line@));
            assert(before + (seq![line@] + lines_from(s@, at + 1, at + 1)) =~= before.push(line@)
                + lines_from(s@, at + 1, at + 1));
            start = at + 1;
        }
        at += 1;
    }
    if start < s.len() {
        let ghost before = rows(out@);
        let line = crate::text::slice_of(s, start, s.len());
        out.push(line);
        assert(rows(out@) =~= before.push(line@));
        assert(before + seq![line@] =~= before.push(line@));
    } else {
        assert(rows(out@) + Seq::<Seq<char>>::empty() =~= rows(out@));
    }
    out
}

/// The lines with a line feed between each two neighbours.
pub fn join_lines(lines: &Vec<Vec<char>>) -> (r: Vec<char>)
    ensures
        r@ == joined(rows(lines@)),
{
    let mut out: Vec<char> = Vec::new();
    let mut i: usize = 0;
    assert(rows(lines@).take(0) =~= Seq::<Seq<char>>::empty());
    while i < lines.len()
        invariant
            i <= lines.len(),
            out@ == joined(rows(lines@).take(i as int)),
        decreases lines.len() - i,
    {
        let ghost done = rows(lines@).take(i as int);
        let ghost next = rows(lines@).take(i + 1);
        assert(next.drop_last() =~= done);
        assert(next.last() == lines@[i as int]@);
        if i > 0 {
            out.push('\n');
        }
        let line = &lines[i];
        let mut j: usize = 0;
        let ghost base = out@;
        while j < line.len()
            invariant
                j <= line.len(),
                out@ == base + line@.take(j as int),
            decreases line.len() - j,
        {
            out.push(line[j]);
            assert(line@.take(j + 1) =~= line@.take(j as int).push(line@[j as int]));
            j += 1;
        }
        assert(line@.take(line.len() as int) =~= line@);
        assert(out@ =~= joined(next)) by {
            if i == 0 {
                assert(base =~= Seq::<char>::empty());
                assert(next.len() == 1);
                assert(next[0] == line@);
            } else {
                assert(base =~= joined(done) + seq!['\n']);
            }
        }
        i += 1;
    }
    assert(rows(lines@).take(lines.len() as int) =~= rows(lines@));
    out
}

/// A copy of the lines from index `from` up to `to`.
pub fn copy_lines(lines: &Vec<Vec<char>>, from: usize, to: usize) -> (r: Vec<Vec<char>>)
    requires
        from <= to <= lines.len(),
    ensures
        rows(r@) == rows(lines@).subrange(from as int, to as int),
{
    let mut out: Vec<Vec<char>> = Vec::new();
    let mut i: usize = from;
    assert(rows(out@) =~= rows(lines@).subrange(from as int, from as int));
    while i < to
        invariant
            from <= i <= to <= lines.len(),
            rows(out@) == rows(lines@).subrange(from as int, i as int),
        decreases to - i,
    {
        let ghost before = rows(out@);
        let line = lines[i].clone();
        out.push(line);
        assert(rows(out@) =~= before.push(line@));
        assert(rows(lines@).subrange(from as int, i + 1) =~= before.push(lines@[i as int]@));
        i += 1;
    }
    out
}

/// Moves the lines of `more` to the end of `lines`.
pub fn append_lines(lines: &mut Vec<Vec<char>>, more: Vec<Vec<char>>)
    ensures
        rows(final(lines)@) == rows(old(lines)@) + rows(more@),
{
    let mut more = more;
    let ghost first = rows(lines@);
    let ghost second = rows(more@);
    let n: usize = more.len();
    let mut i: usize = 0;
    assert(first + second.take(0) =~= first);
    while i < n
        invariant
            i <= n,
            n == more.len(),
            second.len() == n,
            forall|k: int| i <= k < n ==> (#[trigger] more@[k])@ == second[k],
            rows(lines@) == first + second.take(i as int),
        decreases n - i,
    {
        let ghost before = rows(lines@);
        let mut line: Vec<char> = Vec::new();
        std::mem::swap(&mut line, &mut more[i]);
        lines.push(line);
        assert(rows(lines@) =~= before.push(second[i as int]));
        assert(first + second.take(i + 1) =~= (first + second.take(i as int)).push(
            second[i as int],
        ));
        i += 1;
    }
    assert(second.take(n as int) =~= second);
}

/// A text that can stand as one line of a text: it holds no line
/// feed and does not end with a carriage return.
pub open spec fn is_plain_line(line: Seq<char>) -> bool {
    &&& forall|k: int| 0 <= k < line.len() ==> #[trigger] line[k] != '\n'
    &&& (line.len() == 0 || line.last() != '\r')
}

/// The scan for lines passes over characters that are no line feed.
pub proof fn lemma_lines_from_skip(s: Seq<char>, start: int, at: int, to: int)
    requires
        0 <= start <= at <= to <= s.len(),
        forall|k: int| at <= k < to ==> #[trigger] s[k] != '\n',
    ensures
        lines_from(s, start, at) == lines_from(s, start, to),
    decreases to - at,
{
    if at < to {
        assert(s[at] != '\n');
        lemma_lines_from_skip(s, start, at + 1, to);
    }
}

/// The lines of the rear part of a text are those of that part alone.
pub proof fn lemma_lines_from_shift(pre: Seq<char>, rest: Seq<char>, start: int, at: int)
    requires
        0 <= start <= at <= rest.len(),
    ensures
        lines_from(pre + rest, pre.len() + start, pre.len() + at) == lines_from(rest, start, at),
    decreases rest.len() - at,
{
    let s = pre + rest;
    let n = pre.len() as int;
    if at >= rest.len() {
        assert(s.subrange(n + start, s.len() as int) =~= rest.subrange(start, rest.len() as int));
    } else {
        assert(s[n + at] == rest[at]);
        if rest[at] == '\n' {
            if start < at {
                assert(s[n + at - 1] == rest[at - 1]);
                assert(s.subrange(n + start, n + at - 1) =~= rest.subrange(start, at - 1));
            }
            assert(s.subrange(n + start, n + at) =~= rest.subrange(start, at));
            lemma_lines_from_shift(pre, rest, at + 1, at + 1);
        } else {
            lemma_lines_from_shift(pre, rest, start, at + 1);
        }
    }
}

/// Behind a text that ends with a line feed, more text adds its own
/// lines.
pub proof fn lemma_lines_from_append(x: Seq<char>, y: Seq<char>, start: int, at: int)
    requires
        0 <= start <= at <= x.len(),
        forall|k: int| start <= k < at ==> #[trigger] x[k] != '\n',
        x.len() == 0 || x.last() == '\n',
    ensures
        lines_from(x + y, start, at) == lines_from(x, start, at) + lines_of(y),
    decreases x.len() - at,
{
    let s = x + y;
    if at == x.len() {
        if start < at {
            assert(x[at - 1] != '\n');
        }
        lemma_lines_from_shift(x, y, 0, 0);
        assert(lines_from(x, start, at) =~= Seq::<Seq<char>>::empty());
        assert(lines_from(x, start, at) + lines_of(y) =~= lines_of(y));
    } else {
        assert(s[at] == x[at]);
        if x[at] == '\n' {
            if start < at {
                assert(s[at - 1] == x[at - 1]);
                assert(s.subrange(start, at - 1) =~= x.subrange(start, at - 1));
            }
            assert(s.subrange(start, at) =~= x.subrange(start, at));
            lemma_lines_from_append(x, y, at + 1, at + 1);
            assert(seq![terminated_line(x, start, at)] + (lines_from(x, at + 1, at + 1) + lines_of(
                y,
            )) =~= (seq![terminated_line(x, start, at)] + lines_from(x, at + 1, at + 1)) + lines_of(
                y,
            ));
        } else {
            assert forall|k: int| start <= k < at + 1 implies #[trigger] x[k] != '\n' by {}
            lemma_lines_from_append(x, y, start, at + 1);
        }
    }
}

/// A plain line with a line feed behind it is the one line of that
/// text.
pub proof fn lemma_lines_of_terminated(line: Seq<char>)
    requires
        is_plain_line(line),
    ensures
        lines_of(line.push('\n')) == seq![line],
{
    let s = line.push('\n');
    let n = line.len() as int;
    assert forall|k: int| 0 <= k < n implies #[trigger] s[k] != '\n' by {
        assert(s[k] == line[k]);
    }
    lemma_lines_from_skip(s, 0, 0, n);
    assert(s[n] == '\n');
    if n > 0 {
        assert(s[n - 1] == line.last());
    }
    assert(s.subrange(0, n) =~= line);
    assert(lines_from(s, n + 1, n + 1) =~= Seq::<Seq<char>>::empty());
    assert(lines_from(s, 0, n) =~= seq![line]);
}

/// A text without line feed that is not empty is its own one line.
pub proof fn lemma_lines_of_unterminated(line: Seq<char>)
    requires
        line.len() > 0,
        forall|k: int| 0 <= k < line.len() ==> #[trigger] line[k] != '\n',
    ensures
        lines_of(line) == seq![line],
{
    lemma_lines_from_skip(line, 0, 0, line.len() as int);
    assert(line.subrange(0, line.len() as int) =~= line);
}

/// Plain lines that are joined and ended with a line feed are the lines
/// of that text.
pub proof fn lemma_split_joined_terminated(lines: Seq<Seq<char>>)
    requires
        lines.len() > 0,
        forall|i: int| 0 <= i < lines.len() ==> is_plain_line(#[trigger] lines[i]),
    ensures
        lines_of(joined(lines).push('\n')) == lines,
    decreases lines.len(),
{
    let last = lines.last();
    if lines.len() == 1 {
        lemma_lines_of_terminated(lines[0]);
        assert(lines =~= seq![lines[0]]);
    } else {
        let front = lines.drop_last();
        lemma_split_joined_terminated(front);
        let x = joined(front).push('\n');
        let y = last.push('\n');
        assert(joined(lines).push('\n') =~= x + y);
        lemma_lines_from_append(x, y, 0, 0);
        lemma_lines_of_terminated(last);
        assert(front + seq![last] =~= lines);
    }
}

/// Plain lines of which the last is not empty are the lines of the text
/// that joins them.
pub proof fn lemma_split_joined(lines: Seq<Seq<char>>)
    requires
        forall|i: int| 0 <= i < lines.len() ==> is_plain_line(#[trigger] lines[i]),
        lines.len() > 0 ==> lines.last().len() > 0,
    ensures
        lines_of(joined(lines)) == lines,
{
    if lines.len() == 0 {
        assert(lines =~= Seq::<Seq<char>>::empty());
    } else if lines.len() == 1 {
        lemma_lines_of_unterminated(lines[0]);
        assert(lines =~= seq![lines[0]]);
    } else {
        let last = lines.last();
        let front = lines.drop_last();
        lemma_split_joined_terminated(front);
        let x = joined(front).push('\n');
        assert(joined(lines) =~= x + last);
        lemma_lines_from_append(x, last, 0, 0);
        lemma_lines_of_unterminated(last);
        assert(front + seq![last] =~= lines);
    }
}

/// The lines of a text hold no line feed, and without a carriage return
/// in the text none in the lines; a last line that no line feed ends
/// is not empty.
pub proof fn lemma_lines_from_plain(s: Seq<char>, start: int, at: int)
    requires
        0 <= start <= at <= s.len(),
        forall|k: int| start <= k < at ==> #[trigger] s[k] != '\n',
    ensures
        forall|i: int, k: int|
            0 <= i < lines_from(s, start, at).len() && 0 <= k < lines_from(s, start, at)[i].len()
                ==> #[trigger] lines_from(s, start, at)[i][k] != '\n',
        !s.contains('\r') ==> forall|i: int|
            0 <= i < lines_from(s, start, at).len() ==> !(#[trigger] lines_from(
                s,
                start,
                at,
            )[i]).contains('\r'),
        s.len() > 0 && s.last() != '\n' && lines_from(s, start, at).len() > 0 ==> lines_from(
            s,
            start,
            at,
        ).last().len() > 0,
    decreases s.len() - at,
{
    let all = lines_from(s, start, at);
    if at >= s.len() {
        if start < s.len() {
            let line = s.subrange(start, s.len() as int);
            assert(all =~= seq![line]);
            assert forall|k: int| 0 <= k < line.len() implies #[trigger] line[k] != '\n' by {
                assert(line[k] == s[start + k]);
            }
            if !s.contains('\r') {
                if line.contains('\r') {
                    let k = choose|k: int| 0 <= k < line.len() && line[k] == '\r';
                    assert(s[start + k] == '\r');
                }
            }
            assert forall|i: int, k: int|
                0 <= i < all.len() && 0 <= k < all[i].len() implies #[trigger] all[i][k]
                != '\n' by {
                assert(all[i] == line);
            }
            assert forall|i: int| 0 <= i < all.len() implies (!s.contains('\r') ==> !(
            #[trigger] all[i]).contains('\r')) by {
                assert(all[i] == line);
            }
        } else {
            assert(all =~= Seq::<Seq<char>>::empty());
        }
    } else if s[at] == '\n' {
        lemma_lines_from_plain(s, at + 1, at + 1);
        let line = terminated_line(s, start, at);
        let rest = lines_from(s, at + 1, at + 1);
        assert(all == seq![line] + rest);
        assert forall|k: int| 0 <= k < line.len() implies #[trigger] line[k] != '\n' by {
            assert(line[k] == s[start + k]);
        }
        if !s.contains('\r') {
            if line.contains('\r') {
                let k = choose|k: int| 0 <= k < line.len() && line[k] == '\r';
                assert(s[start + k] == '\r');
            }
        }
        assert forall|i: int, k: int|
            0 <= i < all.len() && 0 <= k < all[i].len() implies #[trigger] all[i][k] != '\n' by {
            if i > 0 {
                assert(all[i] == rest[i - 1]);
                assert(rest[i - 1][k] != '\n');
            } else {
                assert(all[i] == line);
            }
        }
        if !s.contains('\r') {
            assert forall|i: int| 0 <= i < all.len() implies !(#[trigger] all[i]).contains(
                '\r',
            ) by {
                if i > 0 {
                    assert(all[i] == rest[i - 1]);
                } else {
                    assert(all[i] == line);
                }
            }
        }
        if s.len() > 0 && s.last() != '\n' {
            assert(at + 1 < s.len());
            if rest.len() > 0 {
                assert(all.last() == rest.last());
            } else {
                lemma_lines_from_rest(s, at + 1);
            }
        }
    } else {
        assert forall|k: int| start <= k < at + 1 implies #[trigger] s[k] != '\n' by {}
        lemma_lines_from_plain(s, start, at + 1);
        assert(all == lines_from(s, start, at + 1));
    }
}

/// A text that does not end at `at` has a line from there.
pub proof fn lemma_lines_from_rest(s: Seq<char>, at: int)
    requires
        0 <= at < s.len(),
    ensures
        lines_from(s, at, at).len() > 0,
{
    lemma_line_count(s, at, at);
}

/// Where the scan for lines stands before the end of the text, or
/// inside a line, there are lines to come.
pub proof fn lemma_line_count(s: Seq<char>, start: int, at: int)
    requires
        0 <= start <= at <= s.len(),
        start < s.len(),
    ensures
        lines_from(s, start, at).len() > 0,
    decreases s.len() - at,
{
    if at < s.len() && s[at] != '\n' {
        lemma_line_count(s, start, at + 1);
    }
}

} // verus!
