//! Character-level building blocks shared by the listing parser, the patch
//! engine and the command builders.
//!
//! Text is modelled as `Seq<char>`. Executable code works on `&[char]` so that
//! every position is a character position, and converts from and to `String`
//! at the edges.

use vstd::prelude::*;
use vstd::slice::slice_subrange;

verus! {

/// Appends one character to a string.
///
/// Trusted: the body is `String::push`, whose documentation says that it
/// appends the given character to the end of the string. The contract says
/// exactly that of the string's characters.
#[verifier::external_body]
fn push_char(s: &mut String, c: char)
    ensures
        final(s)@ == old(s)@.push(c),
{
    s.push(c);
}

/// The characters of `text`, in order.
pub fn chars_of(text: &str) -> (out: Vec<char>)
    ensures
        out@ == text@,
{
    let mut out: Vec<char> = Vec::new();
    for c in it: text.chars()
        invariant
            out@ == it.history(),
            it.seq() == text@,
    {
        out.push(c);
    }
    out
}

/// Appends the characters of `chars` to `s`, in order.
pub fn push_chars(s: &mut String, chars: &[char])
    ensures
        final(s)@ == old(s)@ + chars@,
{
    let mut i: usize = 0;
    assert(chars@.take(0) == Seq::<char>::empty());
    while i < chars.len()
        invariant
            i <= chars.len(),
            s@ == old(s)@ + chars@.take(i as int),
        decreases chars.len() - i,
    {
        push_char(s, chars[i]);
        i += 1;
        assert(chars@.take(i as int) == chars@.take(i - 1).push(chars@[i - 1]));
    }
    assert(chars@.take(i as int) == chars@);
}

/// The string made of the characters of `chars`, in order.
pub fn string_of(chars: &[char]) -> (out: String)
    ensures
        out@ == chars@,
{
    let mut out = String::new();
    push_chars(&mut out, chars);
    out
}

/// Characters with the Unicode property `White_Space`.
pub open spec fn is_whitespace(c: char) -> bool {
    let n = c as u32;
    ||| 0x09 <= n <= 0x0d
    ||| n == 0x20
    ||| n == 0x85
    ||| n == 0xa0
    ||| n == 0x1680
    ||| 0x2000 <= n <= 0x200a
    ||| n == 0x2028
    ||| n == 0x2029
    ||| n == 0x202f
    ||| n == 0x205f
    ||| n == 0x3000
}

/// Whether `c` has the Unicode property `White_Space`.
pub fn char_is_whitespace(c: char) -> (b: bool)
    ensures
        b == is_whitespace(c),
{
    let n: u32 = c as u32;
    (0x09 <= n && n <= 0x0d) || n == 0x20 || n == 0x85 || n == 0xa0 || n == 0x1680 || (0x2000 <= n
        && n <= 0x200a) || n == 0x2028 || n == 0x2029 || n == 0x202f || n == 0x205f || n == 0x3000
}

/// The classes of characters at which text is cut into pieces.
#[derive(Clone, Copy, Debug, PartialEq, Eq, Structural)]
pub enum Delimiter {
    /// The line feed.
    Newline,
    /// Any character with the property `White_Space`.
    Whitespace,
    /// `.` and `:`, which separate the parts of a slot address.
    SlotPunctuation,
}

impl Delimiter {
    /// Whether text is cut at `c`.
    pub open spec fn cuts(self, c: char) -> bool {
        match self {
            Delimiter::Newline => c == '\n',
            Delimiter::Whitespace => is_whitespace(c),
            Delimiter::SlotPunctuation => c == '.' || c == ':',
        }
    }

    /// Whether text is cut at `c`.
    pub fn cuts_at(self, c: char) -> (b: bool)
        ensures
            b == self.cuts(c),
    {
        match self {
            Delimiter::Newline => c == '\n',
            Delimiter::Whitespace => char_is_whitespace(c),
            Delimiter::SlotPunctuation => c == '.' || c == ':',
        }
    }
}

/// Number of characters of `s` before its first delimiter, `s.len()` when it
/// holds none.
pub open spec fn run_len(s: Seq<char>, d: Delimiter) -> nat
    decreases s.len(),
{
    if s.len() == 0 || d.cuts(s[0]) {
        0
    } else {
        1 + run_len(s.skip(1), d)
    }
}

/// `run_len(s, d)` is the one position `n` with no delimiter before it that is
/// the end of `s` or holds a delimiter.
pub proof fn lemma_run_len(s: Seq<char>, d: Delimiter, n: int)
    requires
        0 <= n <= s.len(),
        forall|j: int| 0 <= j < n ==> !d.cuts(#[trigger] s[j]),
        n < s.len() ==> d.cuts(s[n]),
    ensures
        run_len(s, d) == n,
    decreases s.len(),
{
    if n > 0 {
        let t = s.skip(1);
        assert forall|j: int| 0 <= j < n - 1 implies !d.cuts(#[trigger] t[j]) by {
            assert(t[j] == s[j + 1]);
        }
        lemma_run_len(t, d, n - 1);
    }
}

/// No delimiter stands before position `run_len(s, d)`, and one stands at it
/// unless it is the end of `s`.
pub proof fn lemma_run_len_bounds(s: Seq<char>, d: Delimiter)
    ensures
        run_len(s, d) <= s.len(),
        forall|j: int| 0 <= j < run_len(s, d) ==> !d.cuts(#[trigger] s[j]),
        run_len(s, d) < s.len() ==> d.cuts(s[run_len(s, d) as int]),
    decreases s.len(),
{
    if s.len() == 0 || d.cuts(s[0]) {
    } else {
        let t = s.skip(1);
        lemma_run_len_bounds(t, d);
        assert forall|j: int| 0 <= j < run_len(s, d) implies !d.cuts(#[trigger] s[j]) by {
            if j > 0 {
                assert(s[j] == t[j - 1]);
            }
        }
        if run_len(s, d) < s.len() {
            assert(s[run_len(s, d) as int] == t[run_len(t, d) as int]);
        }
    }
}

/// The first position at or after `from` that holds a delimiter, or the end
/// of `s`.
pub fn scan(s: &[char], from: usize, d: Delimiter) -> (end: usize)
    requires
        from <= s.len(),
    ensures
        from <= end <= s.len(),
        end - from == run_len(s@.skip(from as int), d),
{
    let mut i: usize = from;
    while i < s.len() && !d.cuts_at(s[i])
        invariant
            from <= i <= s.len(),
            forall|j: int| from <= j < i ==> !d.cuts(#[trigger] s@[j]),
        decreases s.len() - i,
    {
        i += 1;
    }
    proof {
        let t = s@.skip(from as int);
        assert forall|j: int| 0 <= j < i - from implies !d.cuts(#[trigger] t[j]) by {
            assert(t[j] == s@[from + j]);
        }
        lemma_run_len(t, d, i - from);
    }
    i
}

/// The pieces into which the delimiters of class `d` cut `s`: one more piece
/// than `s` holds delimiters, empty pieces included.
pub open spec fn split(s: Seq<char>, d: Delimiter) -> Seq<Seq<char>>
    decreases s.len(),
{
    let n = run_len(s, d) as int;
    if n >= s.len() {
        seq![s]
    } else {
        seq![s.take(n)] + split(s.skip(n + 1), d)
    }
}

/// The character sequences that the slices of `pieces` hold.
pub open spec fn views(pieces: Seq<&[char]>) -> Seq<Seq<char>> {
    Seq::new(pieces.len(), |i: int| pieces[i]@)
}

/// Cuts `s` at every delimiter of class `d`.
pub fn split_at<'a>(s: &'a [char], d: Delimiter) -> (out: Vec<&'a [char]>)
    ensures
        views(out@) == split(s@, d),
{
    let mut out: Vec<&'a [char]> = Vec::new();
    let mut pos: usize = 0;
    proof {
        assert(s@.skip(0) == s@);
        assert(views(out@) + split(s@, d) == split(s@, d));
    }
    loop
        invariant
            pos <= s.len(),
            split(s@, d) == views(out@) + split(s@.skip(pos as int), d),
        decreases s.len() - pos,
    {
        let end: usize = scan(s, pos, d);
        let ghost rest = s@.skip(pos as int);
        let ghost before = views(out@);
        out.push(slice_subrange(s, pos, end));
        if end >= s.len() {
            proof {
                assert(s@.subrange(pos as int, end as int) == rest);
                assert(views(out@) == before + seq![rest]);
            }
            return out;
        }
        proof {
            assert(s@.subrange(pos as int, end as int) == rest.take(end - pos));
            assert(rest.skip(end - pos + 1) == s@.skip(end + 1));
            assert(views(out@) == before + seq![rest.take(end - pos)]);
        }
        pos = end + 1;
    }
}

/// Whether `needle` stands in `hay` at position `i`.
pub open spec fn occurs_at(hay: Seq<char>, needle: Seq<char>, i: int) -> bool {
    &&& 0 <= i
    &&& i + needle.len() <= hay.len()
    &&& hay.subrange(i, i + needle.len()) == needle
}

/// Whether `needle` stands anywhere in `hay`.
pub open spec fn occurs(hay: Seq<char>, needle: Seq<char>) -> bool {
    exists|i: int| occurs_at(hay, needle, i)
}

/// Whether `i` is the least position at which `needle` stands in `hay`.
pub open spec fn is_first_occurrence(hay: Seq<char>, needle: Seq<char>, i: int) -> bool {
    &&& occurs_at(hay, needle, i)
    &&& forall|j: int| 0 <= j < i ==> !occurs_at(hay, needle, j)
}

/// The least position at which `needle` stands in `hay`, if it stands in it
/// at all.
pub open spec fn first_occurrence(hay: Seq<char>, needle: Seq<char>) -> Option<int> {
    if exists|i: int| is_first_occurrence(hay, needle, i) {
        Some(choose|i: int| is_first_occurrence(hay, needle, i))
    } else {
        None
    }
}

/// A least position of occurrence is the only one.
pub proof fn lemma_first_occurrence_is(hay: Seq<char>, needle: Seq<char>, i: int)
    requires
        is_first_occurrence(hay, needle, i),
    ensures
        first_occurrence(hay, needle) == Some(i),
{
    let k = choose|k: int| is_first_occurrence(hay, needle, k);
    assert(is_first_occurrence(hay, needle, k));
    if k < i {
        assert(!occurs_at(hay, needle, k));
    }
    if i < k {
        assert(!occurs_at(hay, needle, i));
    }
}

/// Among the positions up to `i` at which `needle` stands in `hay` there is a
/// least one.
proof fn lemma_least_occurrence(hay: Seq<char>, needle: Seq<char>, i: int) -> (k: int)
    requires
        occurs_at(hay, needle, i),
    ensures
        0 <= k <= i,
        is_first_occurrence(hay, needle, k),
    decreases i,
{
    if exists|j: int| 0 <= j < i && occurs_at(hay, needle, j) {
        let j = choose|j: int| 0 <= j < i && occurs_at(hay, needle, j);
        lemma_least_occurrence(hay, needle, j)
    } else {
        i
    }
}

/// `needle` has a first occurrence in `hay` exactly when it occurs in it.
pub proof fn lemma_first_occurrence_exists(hay: Seq<char>, needle: Seq<char>)
    ensures
        first_occurrence(hay, needle) is Some <==> occurs(hay, needle),
        first_occurrence(hay, needle) matches Some(i) ==> is_first_occurrence(hay, needle, i),
{
    if occurs(hay, needle) {
        let i = choose|i: int| occurs_at(hay, needle, i);
        let k = lemma_least_occurrence(hay, needle, i);
        lemma_first_occurrence_is(hay, needle, k);
    }
}

/// `needle` stands in a suffix of `hay` where it stands in `hay` itself.
pub proof fn lemma_occurs_at_skip(hay: Seq<char>, needle: Seq<char>, from: int, i: int)
    requires
        0 <= from <= hay.len(),
        0 <= i,
    ensures
        occurs_at(hay.skip(from), needle, i) == occurs_at(hay, needle, from + i),
{
    if i + needle.len() <= hay.len() - from {
        assert(hay.skip(from).subrange(i, i + needle.len()) == hay.subrange(
            from + i,
            from + i + needle.len(),
        ));
    }
}

/// Whether `needle` stands in `hay` at position `i`.
pub fn stands_at(hay: &[char], needle: &[char], i: usize) -> (b: bool)
    ensures
        b == occurs_at(hay@, needle@, i as int),
{
    if needle.len() > hay.len() || i > hay.len() - needle.len() {
        return false;
    }
    let mut k: usize = 0;
    while k < needle.len()
        invariant
            k <= needle.len(),
            i + needle.len() <= hay.len(),
            forall|j: int| 0 <= j < k ==> hay@[i + j] == needle@[j],
        decreases needle.len() - k,
    {
        if hay[i + k] != needle[k] {
            assert(hay@.subrange(i as int, i + needle.len())[k as int] != needle@[k as int]);
            return false;
        }
        k += 1;
    }
    assert(hay@.subrange(i as int, i + needle.len()) == needle@);
    true
}

/// The least position at or after `from` at which `needle` stands in `hay`.
pub fn find(hay: &[char], needle: &[char], from: usize) -> (found: Option<usize>)
    ensures
        match found {
            Some(k) => {
                &&& from <= k
                &&& occurs_at(hay@, needle@, k as int)
                &&& forall|j: int| from <= j < k ==> !occurs_at(hay@, needle@, j)
            },
            None => forall|j: int| from <= j ==> !occurs_at(hay@, needle@, j),
        },
{
    if needle.len() > hay.len() {
        return None;
    }
    let last: usize = hay.len() - needle.len();
    if from > last {
        return None;
    }
    let mut i: usize = from;
    loop
        invariant
            from <= i <= last,
            last == hay.len() - needle.len(),
            forall|j: int| from <= j < i ==> !occurs_at(hay@, needle@, j),
        decreases last - i,
    {
        if stands_at(hay, needle, i) {
            return Some(i);
        }
        if i == last {
            return None;
        }
        i += 1;
    }
}

/// Whether `chars` holds exactly the characters of `text`.
pub fn is_text(chars: &[char], text: &str) -> (b: bool)
    ensures
        b == (chars@ == text@),
{
    let mut i: usize = 0;
    for c in it: text.chars()
        invariant
            it.seq() == text@,
            i == it.index(),
            i <= chars.len(),
            chars@.take(i as int) == text@.take(i as int),
    {
        if i >= chars.len() || chars[i] != c {
            assert(chars@ != text@);
            return false;
        }
        i += 1;
        assert(chars@.take(i as int) == chars@.take(i - 1).push(chars@[i - 1]));
        assert(text@.take(i as int) == text@.take(i - 1).push(text@[i - 1]));
    }
    assert(text@.take(i as int) == text@);
    if i == chars.len() {
        assert(chars@.take(i as int) == chars@);
        true
    } else {
        false
    }
}

/// Appends the characters of `chars` to `out`, in order.
pub fn append_chars(out: &mut Vec<char>, chars: &[char])
    ensures
        final(out)@ == old(out)@ + chars@,
{
    let mut i: usize = 0;
    assert(chars@.take(0) == Seq::<char>::empty());
    while i < chars.len()
        invariant
            i <= chars.len(),
            out@ == old(out)@ + chars@.take(i as int),
        decreases chars.len() - i,
    {
        out.push(chars[i]);
        i += 1;
        assert(chars@.take(i as int) == chars@.take(i - 1).push(chars@[i - 1]));
    }
    assert(chars@.take(i as int) == chars@);
}

/// The test that keeps the pieces that hold a character.
pub open spec fn nonempty() -> spec_fn(Seq<char>) -> bool {
    |w: Seq<char>| w.len() > 0
}

/// The words of `line`: its longest runs of characters that are not
/// whitespace, in order.
pub open spec fn words(line: Seq<char>) -> Seq<Seq<char>> {
    split(line, Delimiter::Whitespace).filter(nonempty())
}

/// The words of `line`, in order.
pub fn words_of<'a>(line: &'a [char]) -> (out: Vec<&'a [char]>)
    ensures
        views(out@) == words(line@),
{
    let pieces = split_at(line, Delimiter::Whitespace);
    let ghost all = views(pieces@);
    let mut out: Vec<&'a [char]> = Vec::new();
    let mut i: usize = 0;
    proof {
        reveal(Seq::filter);
        assert(all.take(0).filter(nonempty()) == views(out@));
    }
    while i < pieces.len()
        invariant
            i <= pieces.len(),
            all == views(pieces@),
            views(out@) == all.take(i as int).filter(nonempty()),
        decreases pieces.len() - i,
    {
        let piece: &'a [char] = pieces[i];
        let ghost before = views(out@);
        proof {
            reveal(Seq::filter);
            assert(all.take(i + 1).drop_last() == all.take(i as int));
            assert(all.take(i + 1).last() == piece@);
        }
        if piece.len() > 0 {
            out.push(piece);
            assert(views(out@) == before.push(piece@));
        }
        i += 1;
    }
    assert(all.take(i as int) == all);
    out
}

/// The words of `words` written one after the other with one space between
/// each two.
pub open spec fn joined(words: Seq<Seq<char>>) -> Seq<char>
    decreases words.len(),
{
    if words.len() == 0 {
        Seq::empty()
    } else if words.len() == 1 {
        words[0]
    } else {
        joined(words.drop_last()) + seq![' '] + words.last()
    }
}

/// Writes the words of `words` one after the other with one space between
/// each two.
pub fn join_words(words: &[&[char]]) -> (out: Vec<char>)
    ensures
        out@ == joined(views(words@)),
{
    let ghost all = views(words@);
    let mut out: Vec<char> = Vec::new();
    let mut i: usize = 0;
    assert(all.take(0) == Seq::<Seq<char>>::empty());
    while i < words.len()
        invariant
            i <= words.len(),
            all == views(words@),
            out@ == joined(all.take(i as int)),
        decreases words.len() - i,
    {
        proof {
            assert(all.take(i + 1).drop_last() == all.take(i as int));
            assert(all.take(i + 1).last() == words@[i as int]@);
        }
        if i > 0 {
            out.push(' ');
        }
        append_chars(&mut out, words[i]);
        i += 1;
    }
    assert(all.take(i as int) == all);
    out
}

/// Text that holds no delimiter is one piece.
pub proof fn lemma_split_whole(s: Seq<char>, d: Delimiter)
    requires
        forall|i: int| 0 <= i < s.len() ==> !d.cuts(#[trigger] s[i]),
    ensures
        split(s, d) == seq![s],
{
    lemma_run_len(s, d, s.len() as int);
}

/// The pieces of two texts with one delimiter between them are the pieces of
/// the first followed by the pieces of the second.
pub proof fn lemma_split_concat(x: Seq<char>, c: char, y: Seq<char>, d: Delimiter)
    requires
        d.cuts(c),
    ensures
        split(x + seq![c] + y, d) == split(x, d) + split(y, d),
    decreases x.len(),
{
    let s = x + seq![c] + y;
    let n = run_len(x, d) as int;
    lemma_run_len_bounds(x, d);
    assert forall|j: int| 0 <= j < n implies !d.cuts(#[trigger] s[j]) by {
        assert(s[j] == x[j]);
    }
    if n < x.len() {
        assert(s[n] == x[n]);
        lemma_run_len(s, d, n);
        assert(s.take(n) == x.take(n));
        assert(s.skip(n + 1) == x.skip(n + 1) + seq![c] + y);
        lemma_split_concat(x.skip(n + 1), c, y, d);
        assert(split(s, d) == seq![x.take(n)] + (split(x.skip(n + 1), d) + split(y, d)));
        assert(split(x, d) == seq![x.take(n)] + split(x.skip(n + 1), d));
    } else {
        assert(s[n] == c);
        lemma_run_len(s, d, n);
        assert(s.take(n) == x);
        assert(s.skip(n + 1) == y);
    }
}

} // verus!
