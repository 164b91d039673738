//! Character sequences: the view every string in this crate is read through,
//! the executable conversions to and from it, and searching in it.

use vstd::prelude::*;
use vstd::string::StringSliceAdditionalSpecFns;

verus! {

/// Whether `c` has the Unicode property White_Space, as `char::is_whitespace`
/// decides it.
pub uninterp spec fn is_white_space(c: char) -> bool;

/// `char::is_whitespace`: the answer is the character's White_Space property,
/// which this crate names `is_white_space` and does not spell out.
pub assume_specification[ char::is_whitespace ](c: char) -> (b: bool)
    ensures
        b == is_white_space(c),
;

/// `String::push`: the character is appended at the end.
pub assume_specification[ String::push ](s: &mut String, c: char)
    ensures
        final(s)@ == old(s)@.push(c),
;

/// The characters of an optional string.
pub open spec fn chars_view(s: Option<String>) -> Option<Seq<char>> {
    match s {
        Some(s) => Some(s@),
        None => None,
    }
}

/// The characters of `s`, in order.
pub fn chars_of(s: &str) -> (v: Vec<char>)
    ensures
        v@ == s@,
{
    let mut v: Vec<char> = Vec::new();
    for c in it: s.chars()
        invariant
            it.seq() == s@,
            v@ == it.seq().take(it.index()),
    {
        v.push(c);
    }
    v
}

/// Whether `a` and `b` hold the same characters.
pub fn same(a: &str, b: &str) -> (r: bool)
    ensures
        r == (a@ == b@),
{
    let x = a.as_bytes();
    let y = b.as_bytes();
    proof {
        vstd::utf8::encode_utf8_decode_utf8(a@);
        vstd::utf8::encode_utf8_decode_utf8(b@);
    }
    if x.len() != y.len() {
        return false;
    }
    let mut i: usize = 0;
    while i < x.len()
        invariant
            i <= x.len(),
            x.len() == y.len(),
            x@ == a.spec_bytes(),
            y@ == b.spec_bytes(),
            forall|k: int| 0 <= k < i ==> x@[k] == y@[k],
        decreases x.len() - i,
    {
        if x[i] != y[i] {
            return false;
        }
        i += 1;
    }
    assert(x@ =~= y@);
    true
}

/// Appends the characters `s[from..to]` to `out`.
pub fn push_range(out: &mut String, s: &Vec<char>, from: usize, to: usize)
    requires
        from <= to <= s.len(),
    ensures
        final(out)@ == old(out)@ + s@.subrange(from as int, to as int),
{
    let mut i: usize = from;
    while i < to
        invariant
            from <= i <= to <= s.len(),
            out@ == old(out)@ + s@.subrange(from as int, i as int),
        decreases to - i,
    {
        out.push(s[i]);
        i += 1;
    }
}

/// `p` stands in `s` at position `at`.
pub open spec fn occurs_at(s: Seq<char>, at: int, p: Seq<char>) -> bool {
    &&& 0 <= at
    &&& at + p.len() <= s.len()
    &&& s.subrange(at, at + p.len()) == p
}

/// `s` begins with `p`.
pub open spec fn starts_with(s: Seq<char>, p: Seq<char>) -> bool {
    occurs_at(s, 0, p)
}

/// `s` ends with `p`.
pub open spec fn ends_with(s: Seq<char>, p: Seq<char>) -> bool {
    occurs_at(s, s.len() - p.len(), p)
}

/// `at` is the first position of `s` at which `p` stands.
pub open spec fn first_occurrence(s: Seq<char>, p: Seq<char>, at: int) -> bool {
    &&& occurs_at(s, at, p)
    &&& forall|j: int| 0 <= j < at ==> !occurs_at(s, j, p)
}

/// Whether `s[at..end]` begins with `p`.
pub fn matches_at(s: &Vec<char>, at: usize, end: usize, p: &Vec<char>) -> (b: bool)
    requires
        at <= end <= s.len(),
    ensures
        b == starts_with(s@.subrange(at as int, end as int), p@),
{
    if p.len() > end - at {
        return false;
    }
    let ghost part = s@.subrange(at as int, end as int);
    let mut i: usize = 0;
    while i < p.len()
        invariant
            at <= end <= s.len(),
            p.len() <= end - at,
            i <= p.len(),
            part == s@.subrange(at as int, end as int),
            forall|k: int| 0 <= k < i ==> s@[at + k] == p@[k],
        decreases p.len() - i,
    {
        if s[at + i] != p[i] {
            assert(part.subrange(0, p.len() as int)[i as int] == s@[at + i]);
            return false;
        }
        i += 1;
    }
    assert(part.subrange(0, p.len() as int) =~= p@);
    true
}

/// The first position of `s` at which `p` stands, if there is one.
pub fn find(s: &Vec<char>, p: &Vec<char>) -> (r: Option<usize>)
    ensures
        match r {
            Some(at) => first_occurrence(s@, p@, at as int),
            None => forall|j: int| !occurs_at(s@, j, p@),
        },
{
    if p.len() > s.len() {
        return None;
    }
    if p.len() == 0 {
        assert(s@.subrange(0, 0) =~= p@);
        return Some(0);
    }
    let last: usize = s.len() - p.len();
    let mut at: usize = 0;
    while at <= last
        invariant
            last == s.len() - p.len(),
            last < s.len(),
            at <= last + 1,
            forall|j: int| 0 <= j < at ==> !occurs_at(s@, j, p@),
        decreases last + 1 - at,
    {
        assert(s@.subrange(at as int, s.len() as int).subrange(0, p.len() as int) =~= s@.subrange(
            at as int,
            at + p.len(),
        ));
        if matches_at(s, at, s.len(), p) {
            return Some(at);
        }
        at += 1;
    }
    None
}

/// Two first occurrences of one pattern are the same position.
pub proof fn lemma_first_occurrence_unique(s: Seq<char>, p: Seq<char>, a: int, b: int)
    requires
        first_occurrence(s, p, a),
        first_occurrence(s, p, b),
    ensures
        a == b,
{
}

/// The position of the first line feed of `s` at or after `from`, or the
/// length of `s` where there is none.
pub open spec fn line_feed_from(s: Seq<char>, from: int) -> int
    decreases s.len() - from,
{
    if from >= s.len() || s[from] == '\n' {
        from
    } else {
        line_feed_from(s, from + 1)
    }
}

/// `line_feed_from` stays inside `s` and passes over no line feed.
pub proof fn lemma_line_feed_from(s: Seq<char>, from: int)
    requires
        0 <= from <= s.len(),
    ensures
        from <= line_feed_from(s, from) <= s.len(),
        line_feed_from(s, from) < s.len() ==> s[line_feed_from(s, from)] == '\n',
        forall|i: int| from <= i < line_feed_from(s, from) ==> s[i] != '\n',
    decreases s.len() - from,
{
    if from < s.len() && s[from] != '\n' {
        lemma_line_feed_from(s, from + 1);
    }
}

/// `line` without the carriage return it may end with.
pub open spec fn without_return(line: Seq<char>) -> Seq<char> {
    if line.len() > 0 && line.last() == '\r' {
        line.drop_last()
    } else {
        line
    }
}

/// The lines of `s` from position `from` on. A line ends with a line feed,
/// or with a carriage return and a line feed, neither of which belongs to it;
/// the last line may end with the text instead, and then keeps a trailing
/// carriage return. A text that ends with a line feed has no empty line
/// after it.
pub open spec fn lines_from(s: Seq<char>, from: int) -> Seq<Seq<char>>
    decreases s.len() - from,
{
    if from < 0 || from >= s.len() {
        Seq::empty()
    } else {
        let feed = line_feed_from(s, from);
        if feed >= s.len() {
            seq![s.subrange(from, s.len() as int)]
        } else {
            proof {
                lemma_line_feed_from(s, from);
            }
            seq![without_return(s.subrange(from, feed))] + lines_from(s, feed + 1)
        }
    }
}

/// One step of a walk over the lines of `s`: for a line that begins at
/// `from`, the position where its content ends and the position where the
/// next line begins.
pub fn next_line(s: &Vec<char>, from: usize) -> (r: (usize, usize))
    requires
        from < s.len(),
    ensures
        from <= r.0 <= r.1 <= s.len(),
        from < r.1,
        r.1 == if line_feed_from(s@, from as int) < s.len() {
            line_feed_from(s@, from as int) + 1
        } else {
            s.len() as int
        },
        lines_from(s@, from as int).len() > 0,
        lines_from(s@, from as int)[0] == s@.subrange(from as int, r.0 as int),
        lines_from(s@, from as int).drop_first() == lines_from(s@, r.1 as int),
{
    let mut feed: usize = from;
    while feed < s.len() && s[feed] != '\n'
        invariant
            from <= feed <= s.len(),
            line_feed_from(s@, from as int) == line_feed_from(s@, feed as int),
        decreases s.len() - feed,
    {
        feed += 1;
    }
    let ghost rest = lines_from(s@, from as int);
    if feed == s.len() {
        assert(rest.drop_first() =~= lines_from(s@, feed as int));
        (feed, feed)
    } else {
        assert(rest.drop_first() =~= lines_from(s@, feed + 1));
        if feed > from && s[feed - 1] == '\r' {
            assert(s@.subrange(from as int, feed as int).drop_last() =~= s@.subrange(
                from as int,
                feed - 1,
            ));
            (feed - 1, feed + 1)
        } else {
            (feed, feed + 1)
        }
    }
}

} // verus!
