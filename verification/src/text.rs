//! Text as sequences of characters: building, comparing, trimming, searching.
use vstd::prelude::*;
use vstd::slice::slice_subrange;
use vstd::string::*;

verus! {

/// `String::push` of the standard library appends one character.
pub assume_specification[ String::push ](s: &mut String, c: char)
    ensures
        final(s)@ == old(s)@.push(c),
;

/// The characters of a string.
pub fn chars_of(s: &str) -> (v: Vec<char>)
    ensures
        v@ == s@,
{
    let mut v: Vec<char> = Vec::new();
    for c in it: s.chars()
        invariant
            it.seq() == s@,
            v@ == s@.take(it.index() as int),
    {
        v.push(c);
    }
    v
}

/// The string made of the given characters.
pub fn string_of(v: &[char]) -> (s: String)
    ensures
        s@ == v@,
{
    let mut s = String::new();
    let mut i: usize = 0;
    while i < v.len()
        invariant
            i <= v@.len(),
            s@ =~= v@.take(i as int),
        decreases v@.len() - i,
    {
        s.push(v[i]);
        i = i + 1;
    }
    assert(v@.take(v@.len() as int) =~= v@);
    s
}

/// Appends a text.
pub fn push_text(out: &mut Vec<char>, s: &str)
    ensures
        final(out)@ == old(out)@ + s@,
{
    let ghost before = out@;
    for c in it: s.chars()
        invariant
            it.seq() == s@,
            out@ =~= before + s@.take(it.index() as int),
    {
        out.push(c);
    }
    assert(s@.take(s@.len() as int) =~= s@);
}

/// The first `n` characters.
pub fn front(v: &[char], n: usize) -> (r: &[char])
    requires
        n <= v@.len(),
    ensures
        r@ == v@.take(n as int),
{
    let r = slice_subrange(v, 0, n);
    assert(r@ =~= v@.take(n as int));
    r
}

/// What follows the first `n` characters.
pub fn back(v: &[char], n: usize) -> (r: &[char])
    requires
        n <= v@.len(),
    ensures
        r@ == v@.skip(n as int),
{
    let r = slice_subrange(v, n, v.len());
    assert(r@ =~= v@.skip(n as int));
    r
}

/// What follows position `i`.
pub fn behind(v: &[char], i: usize) -> (r: &[char])
    requires
        i < v@.len(),
    ensures
        r@ == v@.skip(i + 1),
{
    let len: usize = v.len();
    back(v, i + 1)
}

// ---------------------------------------------------------------- equality

/// Whether two character slices hold the same text.
pub fn same_chars(a: &[char], b: &[char]) -> (r: bool)
    ensures
        r == (a@ == b@),
{
    if a.len() != b.len() {
        return false;
    }
    let mut i: usize = 0;
    while i < a.len()
        invariant
            a@.len() == b@.len(),
            i <= a@.len(),
            forall|j: int| 0 <= j < i ==> a@[j] == b@[j],
        decreases a@.len() - i,
    {
        if a[i] != b[i] {
            assert(a@[i as int] != b@[i as int]);
            return false;
        }
        i = i + 1;
    }
    assert(a@ =~= b@);
    true
}

/// Whether two strings hold the same text.
pub fn same_text(a: &str, b: &str) -> (r: bool)
    ensures
        r == (a@ == b@),
{
    let x = chars_of(a);
    let y = chars_of(b);
    same_chars(x.as_slice(), y.as_slice())
}

// ---------------------------------------------------------------- letters

/// The lower-case form of an ASCII letter; every other character stays as it is.
pub open spec fn lower_char(c: char) -> char {
    if 'A' <= c <= 'Z' {
        (c as u8 + 32) as char
    } else {
        c
    }
}

/// A text with its ASCII letters in lower case.
pub open spec fn lower(s: Seq<char>) -> Seq<char> {
    s.map_values(|c: char| lower_char(c))
}

pub fn to_lower_char(c: char) -> (r: char)
    ensures
        r == lower_char(c),
{
    if 'A' <= c && c <= 'Z' {
        (c as u8 + 32) as char
    } else {
        c
    }
}

pub fn to_lower(v: &[char]) -> (r: Vec<char>)
    ensures
        r@ == lower(v@),
{
    let mut r: Vec<char> = Vec::new();
    let mut i: usize = 0;
    while i < v.len()
        invariant
            i <= v@.len(),
            r@ =~= lower(v@.take(i as int)),
        decreases v@.len() - i,
    {
        r.push(to_lower_char(v[i]));
        assert(v@.take(i + 1) =~= v@.take(i as int).push(v@[i as int]));
        i = i + 1;
    }
    assert(v@.take(v@.len() as int) =~= v@);
    r
}

/// Whether two texts are equal apart from the case of ASCII letters.
pub fn same_ignoring_case(a: &[char], b: &[char]) -> (r: bool)
    ensures
        r == (lower(a@) == lower(b@)),
{
    let x = to_lower(a);
    let y = to_lower(b);
    same_chars(x.as_slice(), y.as_slice())
}

// ---------------------------------------------------------------- trimming

/// The characters that a trim takes off.
#[derive(Debug, Clone, Copy)]
pub enum Trim {
    /// Unicode white space
    Space,
    /// the double quote
    Quote,
    /// the blank and the full stop
    BlankOrStop,
}

/// The Unicode property White_Space.
pub open spec fn is_white_space(c: char) -> bool {
    ||| '\u{9}' <= c <= '\u{d}'
    ||| c == '\u{20}'
    ||| c == '\u{85}'
    ||| c == '\u{a0}'
    ||| c == '\u{1680}'
    ||| '\u{2000}' <= c <= '\u{200a}'
    ||| c == '\u{2028}'
    ||| c == '\u{2029}'
    ||| c == '\u{202f}'
    ||| c == '\u{205f}'
    ||| c == '\u{3000}'
}

impl Trim {
    pub open spec fn takes(self, c: char) -> bool {
        match self {
            Trim::Space => is_white_space(c),
            Trim::Quote => c == '"',
            Trim::BlankOrStop => c == ' ' || c == '.',
        }
    }

    pub fn matches_char(self, c: char) -> (r: bool)
        ensures
            r == self.takes(c),
    {
        match self {
            Trim::Space => ('\u{9}' <= c && c <= '\u{d}') || c == '\u{20}' || c == '\u{85}' || c
                == '\u{a0}' || c == '\u{1680}' || ('\u{2000}' <= c && c <= '\u{200a}') || c
                == '\u{2028}' || c == '\u{2029}' || c == '\u{202f}' || c == '\u{205f}' || c
                == '\u{3000}',
            Trim::Quote => c == '"',
            Trim::BlankOrStop => c == ' ' || c == '.',
        }
    }
}

/// A text without the leading characters that `t` takes.
pub open spec fn trim_front(s: Seq<char>, t: Trim) -> Seq<char>
    decreases s.len(),
{
    if s.len() > 0 && t.takes(s[0]) {
        trim_front(s.drop_first(), t)
    } else {
        s
    }
}

/// A text without the trailing characters that `t` takes.
pub open spec fn trim_back(s: Seq<char>, t: Trim) -> Seq<char>
    decreases s.len(),
{
    if s.len() > 0 && t.takes(s.last()) {
        trim_back(s.drop_last(), t)
    } else {
        s
    }
}

/// A text without the leading and trailing characters that `t` takes.
pub open spec fn trimmed(s: Seq<char>, t: Trim) -> Seq<char> {
    trim_back(trim_front(s, t), t)
}

pub fn trim(v: &[char], t: Trim) -> (r: &[char])
    ensures
        r@ == trimmed(v@, t),
{
    let mut lo: usize = 0;
    assert(v@.subrange(0, v@.len() as int) =~= v@);
    while lo < v.len() && t.matches_char(v[lo])
        invariant
            lo <= v@.len(),
            trim_front(v@, t) == trim_front(v@.subrange(lo as int, v@.len() as int), t),
        decreases v@.len() - lo,
    {
        assert(v@.subrange(lo as int, v@.len() as int).drop_first() =~= v@.subrange(
            lo + 1,
            v@.len() as int,
        ));
        lo = lo + 1;
    }
    let ghost mid = v@.subrange(lo as int, v@.len() as int);
    assert(trim_front(v@, t) == mid);
    let mut hi: usize = v.len();
    while lo < hi && t.matches_char(v[hi - 1])
        invariant
            lo <= hi <= v@.len(),
            trimmed(v@, t) == trim_back(v@.subrange(lo as int, hi as int), t),
        decreases hi,
    {
        assert(v@.subrange(lo as int, hi as int).drop_last() =~= v@.subrange(
            lo as int,
            hi - 1,
        ));
        hi = hi - 1;
    }
    assert(trimmed(v@, t) == v@.subrange(lo as int, hi as int));
    slice_subrange(v, lo, hi)
}

// ---------------------------------------------------------------- searching

/// `needle` stands in `hay` at position `i`.
pub open spec fn occurs_at(hay: Seq<char>, needle: Seq<char>, i: int) -> bool {
    &&& 0 <= i
    &&& i + needle.len() <= hay.len()
    &&& hay.subrange(i, i + needle.len()) == needle
}

/// The first position at or after `i` where `needle` stands in `hay`.
pub open spec fn found_from(hay: Seq<char>, needle: Seq<char>, i: int) -> Option<int>
    decreases hay.len() + 1 - i,
{
    if i + needle.len() > hay.len() {
        None
    } else if occurs_at(hay, needle, i) {
        Some(i)
    } else {
        found_from(hay, needle, i + 1)
    }
}

/// The first position where `needle` stands in `hay`.
pub open spec fn found(hay: Seq<char>, needle: Seq<char>) -> Option<int> {
    found_from(hay, needle, 0)
}

/// The found position is the first one: the needle stands there and nowhere before.
pub proof fn lemma_found_from(hay: Seq<char>, needle: Seq<char>, i: int)
    requires
        0 <= i,
    ensures
        found_from(hay, needle, i) matches Some(k) ==> i <= k && occurs_at(hay, needle, k)
            && forall|j: int| i <= j < k ==> !occurs_at(hay, needle, j),
        found_from(hay, needle, i) is None ==> forall|j: int| i <= j ==> !occurs_at(hay, needle, j),
    decreases hay.len() + 1 - i,
{
    if i + needle.len() > hay.len() || occurs_at(hay, needle, i) {
    } else {
        lemma_found_from(hay, needle, i + 1);
    }
}

pub fn find(hay: &[char], needle: &[char]) -> (r: Option<usize>)
    ensures
        r is Some <==> found(hay@, needle@) is Some,
        r matches Some(i) ==> found(hay@, needle@) == Some(i as int) && i + needle@.len()
            <= hay@.len() <= usize::MAX,
{
    if needle.len() > hay.len() {
        return None;
    }
    let width: usize = needle.len();
    let last: usize = hay.len() - width;
    let mut i: usize = 0;
    loop
        invariant
            i <= last,
            width == needle@.len(),
            last + width == hay@.len(),
            hay@.len() <= usize::MAX,
            found(hay@, needle@) == found_from(hay@, needle@, i as int),
        decreases last - i,
    {
        if same_chars(slice_subrange(hay, i, i + width), needle) {
            return Some(i);
        }
        if i == last {
            assert(found_from(hay@, needle@, i + 1) is None);
            return None;
        }
        i = i + 1;
    }
}

/// Searches for a single character.
pub fn find_char(hay: &[char], c: char) -> (r: Option<usize>)
    ensures
        r is Some <==> found(hay@, seq![c]) is Some,
        r matches Some(i) ==> found(hay@, seq![c]) == Some(i as int) && i < hay@.len()
            <= usize::MAX,
{
    let mut one: Vec<char> = Vec::new();
    one.push(c);
    assert(one@ =~= seq![c]);
    find(hay, one.as_slice())
}

/// A text is left alone by a trim that takes neither its first nor its last character.
pub proof fn lemma_trim_keeps(s: Seq<char>, t: Trim)
    requires
        s.len() > 0 ==> !t.takes(s[0]) && !t.takes(s.last()),
    ensures
        trimmed(s, t) == s,
{
}

/// A trim takes off what it takes and nothing else: the result is a stretch of the text
/// that neither begins nor ends with such a character.
pub proof fn lemma_trimmed(s: Seq<char>, t: Trim) -> (at: int)
    ensures
        0 <= at <= at + trimmed(s, t).len() <= s.len(),
        trimmed(s, t) == s.subrange(at, at + trimmed(s, t).len()),
        trimmed(s, t).len() > 0 ==> !t.takes(trimmed(s, t)[0]) && !t.takes(trimmed(s, t).last()),
    decreases s.len(),
{
    if s.len() > 0 && t.takes(s[0]) {
        let at = lemma_trimmed(s.drop_first(), t);
        assert(trimmed(s, t) == trimmed(s.drop_first(), t));
        assert(trimmed(s, t) =~= s.subrange(at + 1, at + 1 + trimmed(s, t).len()));
        at + 1
    } else {
        lemma_trim_back(s, t);
        0
    }
}

proof fn lemma_trim_back(s: Seq<char>, t: Trim)
    ensures
        trim_back(s, t).len() <= s.len(),
        trim_back(s, t) == s.subrange(0, trim_back(s, t).len() as int),
        trim_back(s, t).len() > 0 ==> !t.takes(trim_back(s, t).last()),
    decreases s.len(),
{
    if s.len() > 0 && t.takes(s.last()) {
        lemma_trim_back(s.drop_last(), t);
    }
    assert(trim_back(s, t) =~= s.subrange(0, trim_back(s, t).len() as int));
}

/// A character is found behind a text that does not hold it.
pub proof fn lemma_found_behind(x: Seq<char>, c: char, y: Seq<char>)
    requires
        !x.contains(c),
    ensures
        found(x + seq![c] + y, seq![c]) == Some(x.len() as int),
{
    let hay = x + seq![c] + y;
    lemma_found_from(hay, seq![c], 0);
    let k = x.len() as int;
    assert(hay.subrange(k, k + 1) =~= seq![c]);
    assert(occurs_at(hay, seq![c], k));
    match found(hay, seq![c]) {
        Some(j) => {
            if j < k {
                assert(hay.subrange(j, j + 1)[0] == c);
                assert(x[j] == c);
            }
        },
        None => {},
    }
}

// ---------------------------------------------------------------- laws

/// In lower case, the 26 capital letters become the small ones, and everything else stays
/// where and what it is.
pub proof fn law_lower_case(s: Seq<char>, i: int)
    requires
        0 <= i < s.len(),
    ensures
        lower(s).len() == s.len(),
        'A' <= s[i] <= 'Z' ==> lower(s)[i] as int == s[i] as int + 32,
        !('A' <= s[i] <= 'Z') ==> lower(s)[i] == s[i],
{
}

/// What a trim takes off: white space, quotes, or blanks and full stops.
pub proof fn law_what_is_trimmed(c: char)
    ensures
        Trim::Quote.takes(c) <==> c == '"',
        Trim::BlankOrStop.takes(c) <==> c == ' ' || c == '.',
        c == ' ' || c == '\t' || c == '\n' || c == '\r' ==> Trim::Space.takes(c),
        '!' <= c <= '~' ==> !Trim::Space.takes(c),
        Trim::Space.takes(c) <==> {
            ||| 0x9 <= c as int <= 0xd
            ||| c as int == 0x20
            ||| c as int == 0x85
            ||| c as int == 0xa0
            ||| c as int == 0x1680
            ||| 0x2000 <= c as int <= 0x200a
            ||| 0x2028 <= c as int <= 0x2029
            ||| c as int == 0x202f
            ||| c as int == 0x205f
            ||| c as int == 0x3000
        },
{
}

/// A trim takes off all that it takes at both ends, and nothing else: what is left is the
/// text between, which neither begins nor ends with such a character; a text of such
/// characters alone is left empty.
pub proof fn law_trim_takes_the_ends(head: Seq<char>, s: Seq<char>, tail: Seq<char>, t: Trim)
    requires
        forall|i: int| 0 <= i < head.len() ==> t.takes(#[trigger] head[i]),
        forall|i: int| 0 <= i < tail.len() ==> t.takes(#[trigger] tail[i]),
        s.len() > 0 ==> !t.takes(s[0]) && !t.takes(s.last()),
    ensures
        trimmed(head + s + tail, t) == s,
    decreases head.len() + tail.len(),
{
    let all = head + s + tail;
    if head.len() > 0 {
        assert(all[0] == head[0]);
        assert(all.drop_first() =~= head.drop_first() + s + tail);
        assert forall|i: int| 0 <= i < head.drop_first().len() implies t.takes(
            #[trigger] head.drop_first()[i],
        ) by {
            assert(head.drop_first()[i] == head[i + 1]);
        }
        law_trim_takes_the_ends(head.drop_first(), s, tail, t);
        assert(trim_front(all, t) == trim_front(all.drop_first(), t));
    } else if s.len() == 0 && tail.len() > 0 {
        assert(all =~= tail);
        assert(all.drop_first() =~= Seq::empty() + s + tail.drop_first());
        assert forall|i: int| 0 <= i < tail.drop_first().len() implies t.takes(
            #[trigger] tail.drop_first()[i],
        ) by {
            assert(tail.drop_first()[i] == tail[i + 1]);
        }
        law_trim_takes_the_ends(Seq::empty(), s, tail.drop_first(), t);
        assert(trim_front(all, t) == trim_front(all.drop_first(), t));
    } else if tail.len() > 0 {
        assert(all[0] == s[0]);
        assert(all.last() == tail.last());
        assert(tail[tail.len() - 1] == tail.last());
        let shorter = all.drop_last();
        assert(shorter =~= head + s + tail.drop_last());
        assert(shorter[0] == s[0]);
        assert forall|i: int| 0 <= i < tail.drop_last().len() implies t.takes(
            #[trigger] tail.drop_last()[i],
        ) by {
            assert(tail.drop_last()[i] == tail[i]);
        }
        law_trim_takes_the_ends(head, s, tail.drop_last(), t);
        assert(trim_front(all, t) == all);
        assert(trim_front(shorter, t) == shorter);
        assert(trim_back(all, t) == trim_back(shorter, t));
    } else {
        assert(all =~= s);
    }
}

/// A search finds the first place where the needle stands, and fails only if it stands
/// nowhere.
pub proof fn law_search_finds_the_first(hay: Seq<char>, needle: Seq<char>, j: int)
    requires
        0 <= j <= j + needle.len() <= hay.len(),
    ensures
        hay.subrange(j, j + needle.len()) == needle ==> (found(hay, needle) matches Some(k) && 0
            <= k <= j),
        found(hay, needle) matches Some(k) ==> 0 <= k <= k + needle.len() <= hay.len()
            && hay.subrange(k, k + needle.len()) == needle,
        found(hay, needle) == Some(j) ==> forall|i: int|
            0 <= i < j ==> #[trigger] hay.subrange(i, i + needle.len()) != needle,
{
    lemma_found_from(hay, needle, 0);
    if found(hay, needle) == Some(j) {
        assert forall|i: int| 0 <= i < j implies #[trigger] hay.subrange(i, i + needle.len())
            != needle by {
            assert(!occurs_at(hay, needle, i));
        }
    }
    if hay.subrange(j, j + needle.len()) == needle {
        assert(occurs_at(hay, needle, j));
    }
}

} // verus!
