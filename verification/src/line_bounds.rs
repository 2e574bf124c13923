//! Line numbers of bytes lie within the lines of a text.

use crate::lines::{lines_from, lines_of};
use crate::text::{line_feeds_before, line_of_offset, utf8_len};
use vstd::prelude::*;

verus! {

/// The number of line feeds of `s` from index `at` on.
pub open spec fn feeds_from(s: Seq<char>, at: int) -> nat
    decreases s.len() - at,
{
    if at < 0 || at >= s.len() {
        0
    } else if s[at] == '\n' {
        feeds_from(s, at + 1) + 1
    } else {
        feeds_from(s, at + 1)
    }
}

/// Whether a line is left behind the last line feed of `s`.
pub open spec fn open_end(s: Seq<char>) -> bool {
    s.len() > 0 && s.last() != '\n'
}

/// A text has as many lines from a place on as it has line feeds from
/// there, and one more if it does not end with a line feed.
pub proof fn lemma_line_count_from(s: Seq<char>, start: int, at: int)
    requires
        0 <= start <= at <= s.len(),
        start < s.len(),
        forall|k: int| start <= k < at ==> #[trigger] s[k] != '\n',
    ensures
        lines_from(s, start, at).len() == feeds_from(s, at) + if open_end(s) {
            1nat
        } else {
            0nat
        },
    decreases s.len() - at,
{
    if at >= s.len() {
        assert(s[s.len() - 1] != '\n');
    } else if s[at] == '\n' {
        if at + 1 < s.len() {
            lemma_line_count_from(s, at + 1, at + 1);
        } else {
            assert(lines_from(s, at + 1, at + 1).len() == 0);
            assert(feeds_from(s, at + 1) == 0);
        }
    } else {
        assert forall|k: int| start <= k < at + 1 implies #[trigger] s[k] != '\n' by {}
        lemma_line_count_from(s, start, at + 1);
    }
}

/// One more character at the end adds its line feed.
pub proof fn lemma_feeds_from_push(s: Seq<char>, c: char, at: int)
    requires
        0 <= at <= s.len(),
    ensures
        feeds_from(s.push(c), at) == feeds_from(s, at) + if c == '\n' {
            1nat
        } else {
            0nat
        },
    decreases s.len() - at,
{
    let t = s.push(c);
    if at < s.len() {
        assert(t[at] == s[at]);
        lemma_feeds_from_push(s, c, at + 1);
    } else {
        assert(t[at] == c);
        assert(feeds_from(t, at + 1) == 0);
    }
}

/// Before a byte of a text stand no more line feeds than the text has,
/// and not the line feed at the end of the text.
pub proof fn lemma_feeds_before(s: Seq<char>, offset: nat)
    ensures
        line_feeds_before(s, offset) <= feeds_from(s, 0),
        offset < utf8_len(s) && !open_end(s) ==> line_feeds_before(s, offset) < feeds_from(s, 0),
    decreases s.len(),
{
    if s.len() > 0 {
        let r = s.drop_last();
        let c = s.last();
        assert(s =~= r.push(c));
        lemma_feeds_before(r, offset);
        lemma_feeds_from_push(r, c, 0);
    }
}

/// The line of a byte of a text is one of the lines of the text.
pub proof fn lemma_line_within(s: Seq<char>, offset: nat)
    requires
        offset < utf8_len(s),
    ensures
        1 <= line_of_offset(s, offset) <= lines_of(s).len(),
{
    assert(s.len() > 0);
    lemma_line_count_from(s, 0, 0);
    lemma_feeds_before(s, offset);
}

/// The line of a byte is not before the line of an earlier byte.
pub proof fn lemma_line_of_later_byte(s: Seq<char>, first: nat, second: nat)
    requires
        first <= second,
    ensures
        line_of_offset(s, first) <= line_of_offset(s, second),
    decreases s.len(),
{
    if s.len() > 0 {
        lemma_line_of_later_byte(s.drop_last(), first, second);
    }
}

} // verus!
