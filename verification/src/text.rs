//! Character-level text operations.
//!
//! Source text is handled as sequences of Unicode scalar values. Every
//! operation here has a mathematical counterpart on `Seq<char>` and the
//! executable version is proved to compute it.

use vstd::prelude::*;

verus! {

/// `String::push` appends one character.
pub assume_specification[ String::push ](s: &mut String, c: char)
    ensures
        final(s)@ == old(s)@.push(c),
;

/// Characters with the Unicode `White_Space` property.
pub open spec fn is_space(c: char) -> bool {
    let u = c as u32;
    ||| 0x09 <= u <= 0x0D
    ||| u == 0x20
    ||| u == 0x85
    ||| u == 0xA0
    ||| u == 0x1680
    ||| 0x2000 <= u <= 0x200A
    ||| u == 0x2028
    ||| u == 0x2029
    ||| u == 0x202F
    ||| u == 0x205F
    ||| u == 0x3000
}

/// Whether `c` is white space.
pub fn is_whitespace(c: char) -> (r: bool)
    ensures
        r == is_space(c),
{
    let u: u32 = c as u32;
    (0x09 <= u && u <= 0x0D) || u == 0x20 || u == 0x85 || u == 0xA0 || u == 0x1680 || (0x2000 <= u
        && u <= 0x200A) || u == 0x2028 || u == 0x2029 || u == 0x202F || u == 0x205F || u == 0x3000
}

/// The markers that decorate an encoded parameter: `*` and `=`.
pub open spec fn is_marker(c: char) -> bool {
    c == '*' || c == '='
}

/// Index of the first character at or after `from` that does not satisfy
/// `p`; `s.len()` when every remaining character satisfies it.
pub open spec fn skip_forward(s: Seq<char>, p: spec_fn(char) -> bool, from: int) -> int
    decreases s.len() - from,
{
    if 0 <= from < s.len() && p(s[from]) {
        skip_forward(s, p, from + 1)
    } else {
        from
    }
}

/// One past the index of the last character before `to` that does not
/// satisfy `p`; `0` when every earlier character satisfies it.
pub open spec fn skip_backward(s: Seq<char>, p: spec_fn(char) -> bool, to: int) -> int
    decreases to,
{
    if 0 < to <= s.len() && p(s[to - 1]) {
        skip_backward(s, p, to - 1)
    } else {
        to
    }
}

/// `s` without its longest prefix and longest suffix of characters that
/// satisfy `p`.
pub open spec fn stripped(s: Seq<char>, p: spec_fn(char) -> bool) -> Seq<char> {
    let a = skip_forward(s, p, 0);
    let b = skip_backward(s, p, s.len() as int);
    if a < b {
        s.subrange(a, b)
    } else {
        Seq::empty()
    }
}

/// `s` without leading and trailing white space.
pub open spec fn trimmed(s: Seq<char>) -> Seq<char> {
    stripped(s, |c: char| is_space(c))
}

/// The leading white space of `s`.
pub open spec fn indentation_of(s: Seq<char>) -> Seq<char> {
    s.subrange(0, skip_forward(s, |c: char| is_space(c), 0))
}

/// `s` without leading and trailing `*` and `=`.
pub open spec fn unmarked(s: Seq<char>) -> Seq<char> {
    stripped(s, |c: char| is_marker(c))
}

/// Whether `s` begins with `p`.
pub open spec fn has_prefix(s: Seq<char>, p: Seq<char>) -> bool {
    p.len() <= s.len() && s.subrange(0, p.len() as int) == p
}

/// Whether `s` ends with `p`.
pub open spec fn has_suffix(s: Seq<char>, p: Seq<char>) -> bool {
    p.len() <= s.len() && s.subrange(s.len() - p.len(), s.len() as int) == p
}

/// Whether `p` occurs in `s` starting at index `i`.
pub open spec fn occurs_at(s: Seq<char>, p: Seq<char>, i: int) -> bool {
    0 <= i && i + p.len() <= s.len() && s.subrange(i, i + p.len()) == p
}

/// Whether `p` occurs somewhere in `s`.
pub open spec fn contains(s: Seq<char>, p: Seq<char>) -> bool {
    exists|i: int| occurs_at(s, p, i)
}

/// Whether `c` is `l` or a character whose lower-case form is `l`, for a
/// lower-case ASCII letter `l`: its upper-case ASCII letter, or the Kelvin
/// sign for `k`.
pub open spec fn matches_letter(c: char, l: char) -> bool {
    c == l || ('A' <= c <= 'Z' && c as u32 + 32 == l as u32) || (c == '\u{212A}' && l == 'k')
}

/// Whether `p` occurs in `s` at index `i` when the characters of `s` are
/// read as lower case.
pub open spec fn occurs_folded_at(s: Seq<char>, p: Seq<char>, i: int) -> bool {
    &&& 0 <= i
    &&& i + p.len() <= s.len()
    &&& forall|j: int| 0 <= j < p.len() ==> matches_letter(#[trigger] s[i + j], p[j])
}

/// Whether `p` occurs somewhere in `s`, ignoring case in `s`.
pub open spec fn contains_folded(s: Seq<char>, p: Seq<char>) -> bool {
    exists|i: int| occurs_folded_at(s, p, i)
}

/// `s` with every leading repetition of `p` removed.
pub open spec fn without_leading(s: Seq<char>, p: Seq<char>) -> Seq<char>
    decreases s.len(),
{
    if p.len() > 0 && has_prefix(s, p) {
        without_leading(s.subrange(p.len() as int, s.len() as int), p)
    } else {
        s
    }
}

/// `s` with every trailing repetition of `p` removed.
pub open spec fn without_trailing(s: Seq<char>, p: Seq<char>) -> Seq<char>
    decreases s.len(),
{
    if p.len() > 0 && has_suffix(s, p) {
        without_trailing(s.subrange(0, s.len() - p.len()), p)
    } else {
        s
    }
}

/// Number of bytes that `c` takes in UTF-8.
pub open spec fn utf8_width(c: char) -> nat {
    let u = c as u32;
    if u < 0x80 {
        1
    } else if u < 0x800 {
        2
    } else if u < 0x10000 {
        3
    } else {
        4
    }
}

/// Number of bytes that `s` takes in UTF-8.
pub open spec fn utf8_len(s: Seq<char>) -> nat
    decreases s.len(),
{
    if s.len() == 0 {
        0
    } else {
        utf8_len(s.drop_last()) + utf8_width(s.last())
    }
}

/// What `skip_forward` returns: everything between `from` and the result
/// satisfies `p`, and the result is the end or a character that does not.
pub proof fn lemma_skip_forward(s: Seq<char>, p: spec_fn(char) -> bool, from: int)
    requires
        0 <= from <= s.len(),
    ensures
        from <= skip_forward(s, p, from) <= s.len(),
        forall|j: int| from <= j < skip_forward(s, p, from) ==> p(#[trigger] s[j]),
        skip_forward(s, p, from) < s.len() ==> !p(s[skip_forward(s, p, from)]),
    decreases s.len() - from,
{
    if from < s.len() && p(s[from]) {
        lemma_skip_forward(s, p, from + 1);
    }
}

/// What `skip_backward` returns: everything between the result and `to`
/// satisfies `p`, and the result is `0` or follows a character that does not.
pub proof fn lemma_skip_backward(s: Seq<char>, p: spec_fn(char) -> bool, to: int)
    requires
        0 <= to <= s.len(),
    ensures
        0 <= skip_backward(s, p, to) <= to,
        forall|j: int| skip_backward(s, p, to) <= j < to ==> p(#[trigger] s[j]),
        skip_backward(s, p, to) > 0 ==> !p(s[skip_backward(s, p, to) - 1]),
    decreases to,
{
    if 0 < to && p(s[to - 1]) {
        lemma_skip_backward(s, p, to - 1);
    }
}

/// Whether every character of `s` is white space.
pub open spec fn all_spaces(s: Seq<char>) -> bool {
    forall|i: int| 0 <= i < s.len() ==> is_space(#[trigger] s[i])
}

/// The index that `skip_forward` returns is the only one with the
/// properties that `lemma_skip_forward` states.
pub proof fn lemma_skip_forward_is(s: Seq<char>, p: spec_fn(char) -> bool, from: int, r: int)
    requires
        0 <= from <= r <= s.len(),
        forall|j: int| from <= j < r ==> p(#[trigger] s[j]),
        r == s.len() || !p(s[r]),
    ensures
        skip_forward(s, p, from) == r,
{
    lemma_skip_forward(s, p, from);
    let x = skip_forward(s, p, from);
    if x < r {
        assert(p(s[x]));
    } else if x > r {
        assert(p(s[r]));
    }
}

/// The index that `skip_backward` returns is the only one with the
/// properties that `lemma_skip_backward` states.
pub proof fn lemma_skip_backward_is(s: Seq<char>, p: spec_fn(char) -> bool, to: int, r: int)
    requires
        0 <= r <= to <= s.len(),
        forall|j: int| r <= j < to ==> p(#[trigger] s[j]),
        r == 0 || !p(s[r - 1]),
    ensures
        skip_backward(s, p, to) == r,
{
    lemma_skip_backward(s, p, to);
    let x = skip_backward(s, p, to);
    if x > r {
        assert(p(s[x - 1]));
    } else if x < r {
        assert(p(s[r - 1]));
    }
}

/// Trimming takes white space away from both ends of a text that
/// begins and ends with other characters, and nothing else.
pub proof fn lemma_trimmed_core(pre: Seq<char>, core: Seq<char>, post: Seq<char>)
    requires
        all_spaces(pre),
        all_spaces(post),
        core.len() > 0,
        !is_space(core[0]),
        !is_space(core.last()),
    ensures
        trimmed(pre + core + post) == core,
{
    let s = pre + core + post;
    let sp = |c: char| is_space(c);
    assert forall|j: int| 0 <= j < pre.len() implies sp(#[trigger] s[j]) by {
        assert(s[j] == pre[j]);
    }
    assert(s[pre.len() as int] == core[0]);
    lemma_skip_forward_is(s, sp, 0, pre.len() as int);
    assert forall|j: int| pre.len() + core.len() <= j < s.len() implies sp(#[trigger] s[j]) by {
        assert(s[j] == post[j - pre.len() - core.len()]);
    }
    assert(s[pre.len() + core.len() - 1] == core.last());
    lemma_skip_backward_is(s, sp, s.len() as int, (pre.len() + core.len()) as int);
    assert(s.subrange(pre.len() as int, (pre.len() + core.len()) as int) =~= core);
}

/// A trimmed text is empty, which it is exactly for a text of white
/// space, or begins and ends with other characters; the text is its
/// trimmed form between two runs of white space.
pub proof fn lemma_trimmed_ends(s: Seq<char>)
    ensures
        trimmed(s).len() == 0 <==> all_spaces(s),
        trimmed(s).len() > 0 ==> !is_space(trimmed(s)[0]) && !is_space(trimmed(s).last()),
        exists|pre: Seq<char>, post: Seq<char>|
            all_spaces(pre) && all_spaces(post) && s == pre + trimmed(s) + post,
{
    let sp = |c: char| is_space(c);
    lemma_skip_forward(s, sp, 0);
    lemma_skip_backward(s, sp, s.len() as int);
    let a = skip_forward(s, sp, 0);
    let b = skip_backward(s, sp, s.len() as int);
    if a < b {
        assert(!is_space(s[a]));
        let pre = s.subrange(0, a);
        let post = s.subrange(b, s.len() as int);
        assert(s =~= pre + trimmed(s) + post);
        assert(all_spaces(pre));
        assert(all_spaces(post));
    } else {
        assert forall|i: int| 0 <= i < s.len() implies is_space(#[trigger] s[i]) by {
            if i < a {
                assert(sp(s[i]));
            } else {
                assert(sp(s[i]));
            }
        }
        assert(s =~= s + trimmed(s) + Seq::<char>::empty());
        assert(all_spaces(Seq::<char>::empty()));
    }
    if all_spaces(s) && a < b {
        assert(is_space(s[a]));
    }
}

/// White space around a text does not change its trimmed form.
pub proof fn lemma_trimmed_padded(pre: Seq<char>, x: Seq<char>, post: Seq<char>)
    requires
        all_spaces(pre),
        all_spaces(post),
    ensures
        trimmed(pre + x + post) == trimmed(x),
{
    lemma_trimmed_ends(x);
    let (a, b) = choose|a: Seq<char>, b: Seq<char>|
        all_spaces(a) && all_spaces(b) && x == a + trimmed(x) + b;
    if trimmed(x).len() > 0 {
        assert(all_spaces(pre + a)) by {
            assert forall|i: int| 0 <= i < (pre + a).len() implies is_space(
                #[trigger] (pre + a)[i],
            ) by {
                if i < pre.len() {
                    assert((pre + a)[i] == pre[i]);
                } else {
                    assert((pre + a)[i] == a[i - pre.len()]);
                }
            }
        }
        assert(all_spaces(b + post)) by {
            assert forall|i: int| 0 <= i < (b + post).len() implies is_space(
                #[trigger] (b + post)[i],
            ) by {
                if i < b.len() {
                    assert((b + post)[i] == b[i]);
                } else {
                    assert((b + post)[i] == post[i - b.len()]);
                }
            }
        }
        assert(pre + x + post =~= (pre + a) + trimmed(x) + (b + post));
        lemma_trimmed_core(pre + a, trimmed(x), b + post);
    } else {
        let s = pre + x + post;
        assert(all_spaces(s)) by {
            assert forall|i: int| 0 <= i < s.len() implies is_space(#[trigger] s[i]) by {
                if i < pre.len() {
                    assert(s[i] == pre[i]);
                } else if i < pre.len() + x.len() {
                    assert(s[i] == x[i - pre.len()]);
                } else {
                    assert(s[i] == post[i - pre.len() - x.len()]);
                }
            }
        }
        lemma_trimmed_ends(s);
    }
}

/// The characters of a string slice, in order.
pub fn chars_of(s: &str) -> (v: Vec<char>)
    ensures
        v@ == s@,
{
    let mut v: Vec<char> = Vec::new();
    for c in it: s.chars()
        invariant
            v@ == it.seq().take(it.index()),
            it.seq() == s@,
    {
        v.push(c);
    }
    v
}

/// The string made of the given characters, in order.
pub fn text_of(chars: &Vec<char>) -> (s: String)
    ensures
        s@ == chars@,
{
    let mut s = String::new();
    let mut i: usize = 0;
    while i < chars.len()
        invariant
            i <= chars.len(),
            s@ == chars@.take(i as int),
        decreases chars.len() - i,
    {
        s.push(chars[i]);
        i += 1;
    }
    s
}

/// A copy of the characters of `s` from index `from` up to `to`.
pub fn slice_of(s: &Vec<char>, from: usize, to: usize) -> (r: Vec<char>)
    requires
        from <= to <= s.len(),
    ensures
        r@ == s@.subrange(from as int, to as int),
{
    let mut r: Vec<char> = Vec::new();
    let mut i: usize = from;
    while i < to
        invariant
            from <= i <= to <= s.len(),
            r@ == s@.subrange(from as int, i as int),
        decreases to - i,
    {
        r.push(s[i]);
        i += 1;
    }
    r
}

/// `a` followed by `b`.
pub fn followed_by(a: &Vec<char>, b: &Vec<char>) -> (r: Vec<char>)
    ensures
        r@ == a@ + b@,
{
    let mut r: Vec<char> = a.clone();
    let mut i: usize = 0;
    while i < b.len()
        invariant
            i <= b.len(),
            r@ == a@ + b@.take(i as int),
        decreases b.len() - i,
    {
        r.push(b[i]);
        i += 1;
    }
    r
}

/// Whether `a` and `b` hold the same characters.
pub fn same_text(a: &Vec<char>, b: &Vec<char>) -> (r: bool)
    ensures
        r == (a@ == b@),
{
    if a.len() != b.len() {
        return false;
    }
    let mut i: usize = 0;
    while i < a.len()
        invariant
            i <= a.len(),
            a.len() == b.len(),
            a@.take(i as int) == b@.take(i as int),
        decreases a.len() - i,
    {
        if a[i] != b[i] {
            return false;
        }
        assert(a@.take(i + 1) == a@.take(i as int).push(a@[i as int]));
        assert(b@.take(i + 1) == b@.take(i as int).push(b@[i as int]));
        i += 1;
    }
    assert(a@.take(a.len() as int) == a@);
    assert(b@.take(b.len() as int) == b@);
    true
}

/// Whether `p` occurs in `s` at index `i`.
pub fn matches_at(s: &Vec<char>, p: &Vec<char>, i: usize) -> (r: bool)
    ensures
        r == occurs_at(s@, p@, i as int),
{
    if i > s.len() || p.len() > s.len() - i {
        return false;
    }
    let mut j: usize = 0;
    while j < p.len()
        invariant
            j <= p.len(),
            i + p.len() <= s.len(),
            forall|k: int| 0 <= k < j ==> s@[i + k] == p@[k],
        decreases p.len() - j,
    {
        if s[i + j] != p[j] {
            assert(s@.subrange(i as int, i + p.len())[j as int] == s@[i + j]);
            return false;
        }
        j += 1;
    }
    assert(s@.subrange(i as int, i + p.len()) =~= p@);
    true
}

/// Whether `s` begins with `p`.
pub fn starts_with(s: &Vec<char>, p: &Vec<char>) -> (r: bool)
    ensures
        r == has_prefix(s@, p@),
{
    matches_at(s, p, 0)
}

/// Whether `s` ends with `p`.
pub fn ends_with(s: &Vec<char>, p: &Vec<char>) -> (r: bool)
    ensures
        r == has_suffix(s@, p@),
{
    if p.len() > s.len() {
        return false;
    }
    matches_at(s, p, s.len() - p.len())
}

/// Whether `p` occurs somewhere in `s`.
pub fn find_in(s: &Vec<char>, p: &Vec<char>) -> (r: bool)
    ensures
        r == contains(s@, p@),
{
    if p.len() > s.len() {
        return false;
    }
    let last: usize = s.len() - p.len();
    let mut i: usize = 0;
    loop
        invariant
            i <= last,
            last == s.len() - p.len(),
            forall|k: int| 0 <= k < i ==> !occurs_at(s@, p@, k),
        decreases last - i,
    {
        if matches_at(s, p, i) {
            return true;
        }
        if i == last {
            return false;
        }
        i += 1;
    }
}

/// Whether `c` is `l` or a character whose lower-case form is `l`.
pub fn letter_matches(c: char, l: char) -> (r: bool)
    ensures
        r == matches_letter(c, l),
{
    c == l || ('A' <= c && c <= 'Z' && c as u32 + 32 == l as u32) || (c == '\u{212A}' && l == 'k')
}

/// Whether `p` occurs somewhere in `s`, ignoring case in `s`.
pub fn find_folded(s: &Vec<char>, p: &Vec<char>) -> (r: bool)
    ensures
        r == contains_folded(s@, p@),
{
    if p.len() > s.len() {
        return false;
    }
    let last: usize = s.len() - p.len();
    let mut i: usize = 0;
    loop
        invariant
            i <= last,
            last == s.len() - p.len(),
            forall|k: int| 0 <= k < i ==> !occurs_folded_at(s@, p@, k),
        decreases last - i,
    {
        let mut j: usize = 0;
        let mut same: bool = true;
        while j < p.len() && same
            invariant
                j <= p.len(),
                i + p.len() <= s.len(),
                same ==> forall|k: int| 0 <= k < j ==> matches_letter(#[trigger] s@[i + k], p@[k]),
                !same ==> !occurs_folded_at(s@, p@, i as int),
            decreases p.len() - j + if same { 1int } else { 0int },
        {
            if letter_matches(s[i + j], p[j]) {
                j += 1;
            } else {
                assert(!matches_letter(s@[i + j], p@[j as int]));
                same = false;
            }
        }
        if same {
            assert(occurs_folded_at(s@, p@, i as int));
            return true;
        }
        if i == last {
            return false;
        }
        i += 1;
    }
}

/// Index of the first character of `s` at or after `from` that is not white space.
pub fn skip_spaces(s: &Vec<char>, from: usize) -> (r: usize)
    requires
        from <= s.len(),
    ensures
        r == skip_forward(s@, |c: char| is_space(c), from as int),
        from <= r <= s.len(),
{
    let mut i: usize = from;
    while i < s.len() && is_whitespace(s[i])
        invariant
            from <= i <= s.len(),
            skip_forward(s@, |c: char| is_space(c), from as int) == skip_forward(
                s@,
                |c: char| is_space(c),
                i as int,
            ),
        decreases s.len() - i,
    {
        i += 1;
    }
    i
}

/// One past the index of the last character of `s` before `to` that is not white space.
pub fn skip_spaces_back(s: &Vec<char>, to: usize) -> (r: usize)
    requires
        to <= s.len(),
    ensures
        r == skip_backward(s@, |c: char| is_space(c), to as int),
        r <= to,
{
    let mut i: usize = to;
    while i > 0 && is_whitespace(s[i - 1])
        invariant
            i <= to <= s.len(),
            skip_backward(s@, |c: char| is_space(c), to as int) == skip_backward(
                s@,
                |c: char| is_space(c),
                i as int,
            ),
        decreases i,
    {
        i -= 1;
    }
    i
}

/// `s` without leading and trailing white space.
pub fn trim(s: &Vec<char>) -> (r: Vec<char>)
    ensures
        r@ == trimmed(s@),
{
    let a = skip_spaces(s, 0);
    let b = skip_spaces_back(s, s.len());
    if a < b {
        slice_of(s, a, b)
    } else {
        Vec::new()
    }
}

/// The leading white space of `s`.
pub fn indentation(s: &Vec<char>) -> (r: Vec<char>)
    ensures
        r@ == indentation_of(s@),
{
    let a = skip_spaces(s, 0);
    slice_of(s, 0, a)
}

/// `s` without leading and trailing `*` and `=`.
pub fn strip_markers(s: &Vec<char>) -> (r: Vec<char>)
    ensures
        r@ == unmarked(s@),
{
    let mut a: usize = 0;
    while a < s.len() && (s[a] == '*' || s[a] == '=')
        invariant
            a <= s.len(),
            skip_forward(s@, |c: char| is_marker(c), 0) == skip_forward(
                s@,
                |c: char| is_marker(c),
                a as int,
            ),
        decreases s.len() - a,
    {
        a += 1;
    }
    let mut b: usize = s.len();
    while b > 0 && (s[b - 1] == '*' || s[b - 1] == '=')
        invariant
            b <= s.len(),
            skip_backward(s@, |c: char| is_marker(c), s.len() as int) == skip_backward(
                s@,
                |c: char| is_marker(c),
                b as int,
            ),
        decreases b,
    {
        b -= 1;
    }
    if a < b {
        slice_of(s, a, b)
    } else {
        Vec::new()
    }
}

/// `s` with every leading repetition of `p` removed.
pub fn strip_leading(s: &Vec<char>, p: &Vec<char>) -> (r: Vec<char>)
    ensures
        r@ == without_leading(s@, p@),
{
    let mut from: usize = 0;
    assert(s@.subrange(0, s.len() as int) =~= s@);
    while p.len() > 0 && matches_at(s, p, from)
        invariant
            from <= s.len(),
            without_leading(s@, p@) == without_leading(
                s@.subrange(from as int, s.len() as int),
                p@,
            ),
        decreases s.len() - from,
    {
        proof {
            let rest = s@.subrange(from as int, s.len() as int);
            assert(rest.subrange(0, p.len() as int) =~= s@.subrange(from as int, from + p.len()));
            assert(rest.subrange(p.len() as int, rest.len() as int) =~= s@.subrange(
                from + p.len(),
                s.len() as int,
            ));
        }
        from += p.len();
    }
    proof {
        let rest = s@.subrange(from as int, s.len() as int);
        if p.len() > 0 && p.len() <= rest.len() {
            assert(rest.subrange(0, p.len() as int) =~= s@.subrange(from as int, from + p.len()));
        }
    }
    slice_of(s, from, s.len())
}

/// `s` with every trailing repetition of `p` removed.
pub fn strip_trailing(s: &Vec<char>, p: &Vec<char>) -> (r: Vec<char>)
    ensures
        r@ == without_trailing(s@, p@),
{
    let mut to: usize = s.len();
    assert(s@.subrange(0, s.len() as int) =~= s@);
    while p.len() > 0 && to >= p.len() && matches_at(s, p, to - p.len())
        invariant
            to <= s.len(),
            without_trailing(s@, p@) == without_trailing(s@.subrange(0, to as int), p@),
        decreases to,
    {
        proof {
            let rest = s@.subrange(0, to as int);
            assert(rest.subrange(rest.len() - p.len(), rest.len() as int) =~= s@.subrange(
                to - p.len(),
                to as int,
            ));
            assert(rest.subrange(0, rest.len() - p.len()) =~= s@.subrange(0, to - p.len()));
        }
        to -= p.len();
    }
    proof {
        let rest = s@.subrange(0, to as int);
        if p.len() > 0 && p.len() <= rest.len() {
            assert(rest.subrange(rest.len() - p.len(), rest.len() as int) =~= s@.subrange(
                to - p.len(),
                to as int,
            ));
        }
    }
    slice_of(s, 0, to)
}

/// Adding a character adds its width to the byte length.
pub proof fn lemma_utf8_len_push(s: Seq<char>, c: char)
    ensures
        utf8_len(s.push(c)) == utf8_len(s) + utf8_width(c),
{
    assert(s.push(c).drop_last() =~= s);
}

/// The byte length of a prefix does not exceed that of the whole.
pub proof fn lemma_utf8_len_prefix(s: Seq<char>, n: int)
    requires
        0 <= n <= s.len(),
    ensures
        utf8_len(s.take(n)) <= utf8_len(s),
        n <= utf8_len(s.take(n)),
    decreases s.len(),
{
    if n == s.len() {
        assert(s.take(n) =~= s);
        if n > 0 {
            lemma_utf8_len_prefix(s.drop_last(), n - 1);
            assert(s.drop_last().take(n - 1) =~= s.drop_last());
        }
    } else {
        lemma_utf8_len_prefix(s.drop_last(), n);
        assert(s.drop_last().take(n) =~= s.take(n));
    }
}

/// The number of line feeds of `s` that start before byte `offset` of
/// its UTF-8 form.
pub open spec fn line_feeds_before(s: Seq<char>, offset: nat) -> nat
    decreases s.len(),
{
    if s.len() == 0 {
        0
    } else if s.last() == '\n' && utf8_len(s.drop_last()) < offset {
        line_feeds_before(s.drop_last(), offset) + 1
    } else {
        line_feeds_before(s.drop_last(), offset)
    }
}

/// The line, counted from 1, that holds byte `offset` of the UTF-8 form
/// of `s`.
pub open spec fn line_of_offset(s: Seq<char>, offset: nat) -> nat {
    line_feeds_before(s, offset) + 1
}

/// Characters that start at or after byte `offset` add no line feeds
/// before it.
pub proof fn lemma_line_feeds_settled(s: Seq<char>, n: int, offset: nat)
    requires
        0 <= n <= s.len(),
        utf8_len(s.take(n)) >= offset,
    ensures
        line_feeds_before(s, offset) == line_feeds_before(s.take(n), offset),
    decreases s.len() - n,
{
    if n == s.len() {
        assert(s.take(n) =~= s);
    } else {
        assert(s.take(n + 1).drop_last() =~= s.take(n));
        lemma_line_feeds_settled(s, n + 1, offset);
    }
}

/// The line, counted from 1, that holds byte `offset` of the UTF-8 form
/// of `s`; the largest number there is if the line number is larger.
pub fn line_at_offset(s: &Vec<char>, offset: usize) -> (r: usize)
    ensures
        r == if line_of_offset(s@, offset as nat) <= usize::MAX {
            line_of_offset(s@, offset as nat)
        } else {
            usize::MAX as nat
        },
{
    let mut feeds: usize = 0;
    let mut bytes: usize = 0;
    let mut i: usize = 0;
    while i < s.len()
        invariant
            i <= s.len(),
            bytes == utf8_len(s@.take(i as int)),
            feeds == line_feeds_before(s@.take(i as int), offset as nat),
            feeds <= i,
            bytes < offset || i == 0,
        decreases s.len() - i,
    {
        if bytes >= offset {
            proof {
                lemma_line_feeds_settled(s@, i as int, offset as nat);
            }
            return feeds.saturating_add(1);
        }
        let u: u32 = s[i] as u32;
        let w: usize = if u < 0x80 {
            1
        } else if u < 0x800 {
            2
        } else if u < 0x10000 {
            3
        } else {
            4
        };
        proof {
            assert(s@.take(i + 1).drop_last() =~= s@.take(i as int));
            assert(s@.take(i + 1).last() == s@[i as int]);
        }
        if s[i] == '\n' {
            feeds += 1;
        }
        if w >= offset - bytes {
            proof {
                lemma_line_feeds_settled(s@, i + 1, offset as nat);
            }
            return feeds.saturating_add(1);
        }
        bytes += w;
        i += 1;
    }
    assert(s@.take(s.len() as int) =~= s@);
    feeds.saturating_add(1)
}

/// The number of characters of `s` that start before byte `offset` of
/// its UTF-8 form.
pub open spec fn chars_before(s: Seq<char>, offset: nat) -> nat
    decreases s.len(),
{
    if s.len() == 0 {
        0
    } else if utf8_len(s.drop_last()) < offset {
        chars_before(s.drop_last(), offset) + 1
    } else {
        chars_before(s.drop_last(), offset)
    }
}

/// The characters of `s` that start at the bytes from `start` up to
/// `end` of its UTF-8 form; none where `end` lies before `start`.
pub open spec fn between_bytes(s: Seq<char>, start: nat, end: nat) -> Seq<char> {
    if chars_before(s, start) <= chars_before(s, end) <= s.len() {
        s.subrange(chars_before(s, start) as int, chars_before(s, end) as int)
    } else {
        Seq::empty()
    }
}

/// Characters that start at or after byte `offset` are not counted
/// before it.
pub proof fn lemma_chars_settled(s: Seq<char>, n: int, offset: nat)
    requires
        0 <= n <= s.len(),
        utf8_len(s.take(n)) >= offset,
    ensures
        chars_before(s, offset) == chars_before(s.take(n), offset),
    decreases s.len() - n,
{
    if n == s.len() {
        assert(s.take(n) =~= s);
    } else {
        assert(s.take(n + 1).drop_last() =~= s.take(n));
        lemma_chars_settled(s, n + 1, offset);
    }
}

/// The number of characters of `s` that start before byte `offset`.
pub fn char_index_at(s: &Vec<char>, offset: usize) -> (r: usize)
    ensures
        r == chars_before(s@, offset as nat),
        r <= s.len(),
{
    let mut bytes: usize = 0;
    let mut i: usize = 0;
    while i < s.len()
        invariant
            i <= s.len(),
            bytes == utf8_len(s@.take(i as int)),
            i == chars_before(s@.take(i as int), offset as nat),
        decreases s.len() - i,
    {
        if bytes >= offset {
            proof {
                lemma_chars_settled(s@, i as int, offset as nat);
            }
            return i;
        }
        let u: u32 = s[i] as u32;
        let w: usize = if u < 0x80 {
            1
        } else if u < 0x800 {
            2
        } else if u < 0x10000 {
            3
        } else {
            4
        };
        proof {
            assert(s@.take(i + 1).drop_last() =~= s@.take(i as int));
            assert(s@.take(i + 1).last() == s@[i as int]);
        }
        if w >= offset - bytes {
            proof {
                lemma_chars_settled(s@, i + 1, offset as nat);
            }
            return i + 1;
        }
        bytes += w;
        i += 1;
    }
    assert(s@.take(s.len() as int) =~= s@);
    i
}

/// The characters of `s` that start at the bytes from `start` up to
/// `end` of its UTF-8 form.
pub fn cut(s: &Vec<char>, start: usize, end: usize) -> (r: Vec<char>)
    ensures
        r@ == between_bytes(s@, start as nat, end as nat),
{
    let a = char_index_at(s, start);
    let b = char_index_at(s, end);
    if a <= b {
        slice_of(s, a, b)
    } else {
        Vec::new()
    }
}

/// Whether `s` takes fewer than `limit` bytes in UTF-8.
pub fn shorter_than(s: &Vec<char>, limit: usize) -> (r: bool)
    ensures
        r == (utf8_len(s@) < limit),
{
    if s.len() >= limit {
        proof {
            lemma_utf8_len_prefix(s@, s.len() as int);
            assert(s@.take(s.len() as int) =~= s@);
        }
        return false;
    }
    let mut total: usize = 0;
    let mut i: usize = 0;
    while i < s.len()
        invariant
            i <= s.len() < limit,
            total == utf8_len(s@.take(i as int)),
            total < limit,
        decreases s.len() - i,
    {
        let u: u32 = s[i] as u32;
        let w: usize = if u < 0x80 {
            1
        } else if u < 0x800 {
            2
        } else if u < 0x10000 {
            3
        } else {
            4
        };
        proof {
            assert(s@.take(i + 1) =~= s@.take(i as int).push(s@[i as int]));
            lemma_utf8_len_push(s@.take(i as int), s@[i as int]);
            lemma_utf8_len_prefix(s@, i + 1);
        }
        if w >= limit - total {
            return false;
        }
        total += w;
        i += 1;
    }
    assert(s@.take(s.len() as int) =~= s@);
    true
}

} // verus!
