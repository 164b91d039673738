//! The textual extractor: a line scan that frames the params block of a
//! generated request file, and the reading of that block as a descriptor.

use crate::error::Error;
use crate::json::{members_view, json_object, parse_object, JsonValue, JsonValueView, Member};
use crate::params::{outcome_view, Params, ParamsView};
use crate::text::{
    chars_of, chars_view, find, first_occurrence, is_white_space, lemma_first_occurrence_unique, lines_from,
    matches_at, next_line, push_range, starts_with,
};
use vstd::prelude::*;

verus! {

/// The literal that marks a request descriptor in a generated file.
pub open spec fn marker() -> Seq<char> {
    "ConcreteRequest"@
}

/// The key and opening brace that a params block begins with.
pub open spec fn params_key() -> Seq<char> {
    "\"params\": {"@
}

/// The number of white-space characters that `line` begins with.
pub open spec fn indent(line: Seq<char>) -> nat
    decreases line.len(),
{
    if line.len() > 0 && is_white_space(line[0]) {
        1 + indent(line.drop_first())
    } else {
        0
    }
}

/// `line` opens a params block: after its indentation stands the key.
pub open spec fn opens_block(line: Seq<char>) -> bool {
    starts_with(line.skip(indent(line) as int), params_key())
}

/// What follows the key on a line that opens a block.
pub open spec fn after_key(line: Seq<char>) -> Seq<char> {
    line.skip((indent(line) + params_key().len()) as int)
}

/// What the line that closes a block begins with, where the line that opened
/// it was indented by `n`: `n` spaces and a closing brace.
pub open spec fn closing(n: nat) -> Seq<char> {
    Seq::new(n, |i: int| ' ').push('}')
}

/// Among the lines `ls`, `p` is the first that opens a params block and `q`
/// the first after it that closes the block.
pub open spec fn frames(ls: Seq<Seq<char>>, p: int, q: int) -> bool {
    &&& 0 <= p < q < ls.len()
    &&& opens_block(ls[p])
    &&& forall|i: int| 0 <= i < p ==> !opens_block(ls[i])
    &&& starts_with(ls[q], closing(indent(ls[p])))
    &&& forall|j: int| p < j < q ==> !starts_with(ls[j], closing(indent(ls[p])))
}

/// The lines `ls[from..to]` one after the other, with nothing between them.
pub open spec fn joined(ls: Seq<Seq<char>>, from: int, to: int) -> Seq<char>
    decreases to - from,
{
    if to <= from {
        Seq::empty()
    } else {
        joined(ls, from, to - 1) + ls[to - 1]
    }
}

/// The object literal of a block that line `p` opens and line `q` closes: a
/// brace in place of the indentation and key of line `p`, what follows the
/// key on that line, then the lines after it through line `q`.
pub open spec fn block_text(ls: Seq<Seq<char>>, p: int, q: int) -> Seq<char> {
    seq!['{'] + after_key(ls[p]) + joined(ls, p + 1, q + 1)
}

/// The object literal of the first params block among the lines `ls`;
/// none where no line opens a block, or no line after the first that opens
/// one closes it.
pub open spec fn framed(ls: Seq<Seq<char>>) -> Option<Seq<char>> {
    if exists|p: int, q: int| frames(ls, p, q) {
        let (p, q) = choose|p: int, q: int| frames(ls, p, q);
        Some(block_text(ls, p, q))
    } else {
        None
    }
}

/// What the textual scan hands to the JSON parser for a file that holds
/// `contents`: the framed block of the lines from the first marker on;
/// nothing where the marker is absent or no block is framed after it.
pub open spec fn fragment(contents: Seq<char>) -> Option<Seq<char>> {
    if exists|m: int| first_occurrence(contents, marker(), m) {
        let m = choose|m: int| first_occurrence(contents, marker(), m);
        framed(lines_from(contents, m))
    } else {
        None
    }
}

/// One set of lines has one frame.
pub proof fn lemma_frames_unique(ls: Seq<Seq<char>>, p: int, q: int, u: int, v: int)
    requires
        frames(ls, p, q),
        frames(ls, u, v),
    ensures
        p == u,
        q == v,
{
}

/// The number of white-space characters that `s[from..to]` begins with.
pub fn leading_white_space(s: &Vec<char>, from: usize, to: usize) -> (n: usize)
    requires
        from <= to <= s.len(),
    ensures
        n == indent(s@.subrange(from as int, to as int)),
        n <= to - from,
{
    let ghost line = s@.subrange(from as int, to as int);
    let mut i: usize = from;
    assert(line.skip(0) =~= line);
    while i < to && s[i].is_whitespace()
        invariant
            from <= i <= to <= s.len(),
            line == s@.subrange(from as int, to as int),
            indent(line) == (i - from) + indent(line.skip(i - from)),
        decreases to - i,
    {
        assert(line.skip(i - from).drop_first() =~= line.skip(i - from + 1));
        i += 1;
    }
    i - from
}

/// Whether `s[from..to]` begins with `n` spaces and a closing brace.
pub fn closes(s: &Vec<char>, from: usize, to: usize, n: usize) -> (b: bool)
    requires
        from <= to <= s.len(),
    ensures
        b == starts_with(s@.subrange(from as int, to as int), closing(n as nat)),
{
    if to - from <= n {
        return false;
    }
    let ghost line = s@.subrange(from as int, to as int);
    let ghost c = closing(n as nat);
    let mut i: usize = 0;
    while i < n
        invariant
            from <= to <= s.len(),
            n < to - from,
            i <= n,
            line == s@.subrange(from as int, to as int),
            c == closing(n as nat),
            forall|k: int| 0 <= k < i ==> line[k] == ' ',
        decreases n - i,
    {
        assert(line[i as int] == s@[from + i]);
        if s[from + i] != ' ' {
            assert(line.subrange(0, c.len() as int)[i as int] != c[i as int]);
            return false;
        }
        i += 1;
    }
    assert(line[n as int] == s@[from + n]);
    if s[from + n] != '}' {
        assert(line.subrange(0, c.len() as int)[n as int] != c[n as int]);
        return false;
    }
    assert(line.subrange(0, c.len() as int) =~= c);
    true
}

/// Frames the params block of a generated file: the object literal of the
/// first params block after the marker; `None` where the file does not hold
/// the marker, or holds no params block after it that is opened and closed.
pub fn find_params(contents: &str) -> (r: Option<String>)
    ensures
        match r {
            Some(f) => fragment(contents@) == Some(f@),
            None => fragment(contents@) is None,
        },
{
    let s = chars_of(contents);
    let mark = chars_of("ConcreteRequest");
    let key = chars_of("\"params\": {");
    let m = match find(&s, &mark) {
        Some(m) => m,
        None => {
            return None;
        },
    };
    let ghost ls = lines_from(s@, m as int);
    proof {
        assert(first_occurrence(s@, marker(), m as int));
        let m2 = choose|m2: int| first_occurrence(s@, marker(), m2);
        lemma_first_occurrence_unique(s@, marker(), m as int, m2);
        assert(fragment(contents@) == framed(ls));
    }
    let ghost mut k: int = 0;
    let mut pos = m;
    assert(ls.skip(0) =~= ls);
    while pos < s.len()
        invariant
            pos <= s.len(),
            key@ == params_key(),
            ls == lines_from(s@, m as int),
            fragment(contents@) == framed(ls),
            0 <= k <= ls.len(),
            ls.skip(k) == lines_from(s@, pos as int),
            forall|i: int| 0 <= i < k ==> !opens_block(ls[i]),
        decreases s.len() - pos,
    {
        let (end, next) = next_line(&s, pos);
        let n = leading_white_space(&s, pos, end);
        let ghost line = s@.subrange(pos as int, end as int);
        assert(ls[k] == ls.skip(k)[0]);
        assert(line.skip(n as int) =~= s@.subrange(pos + n, end as int));
        assert(ls.skip(k).drop_first() =~= ls.skip(k + 1));
        if matches_at(&s, pos + n, end, &key) {
            let mut out = String::new();
            out.push('{');
            push_range(&mut out, &s, pos + n + key.len(), end);
            assert(line.skip(n + key.len()) =~= s@.subrange(pos + n + key.len(), end as int));
            assert(out@ =~= seq!['{'] + after_key(ls[k]));
            let ghost p = k;
            let mut at = next;
            proof {
                k = k + 1;
            }
            while at < s.len()
                invariant
                    at <= s.len(),
                    ls == lines_from(s@, m as int),
                    fragment(contents@) == framed(ls),
                    0 <= p < k <= ls.len(),
                    opens_block(ls[p]),
                    forall|i: int| 0 <= i < p ==> !opens_block(ls[i]),
                    n == indent(ls[p]),
                    ls.skip(k) == lines_from(s@, at as int),
                    forall|j: int| p < j < k ==> !starts_with(ls[j], closing(n as nat)),
                    out@ == seq!['{'] + after_key(ls[p]) + joined(
                        ls,
                        p + 1,
                        k,
                    ),
                decreases s.len() - at,
            {
                let (end, next) = next_line(&s, at);
                assert(ls[k] == ls.skip(k)[0]);
                assert(ls.skip(k).drop_first() =~= ls.skip(k + 1));
                push_range(&mut out, &s, at, end);
                if closes(&s, at, end, n) {
                    proof {
                        assert(frames(ls, p, k));
                        let (u, v) = choose|u: int, v: int| frames(ls, u, v);
                        lemma_frames_unique(ls, p, k, u, v);
                    }
                    return Some(out);
                }
                at = next;
                proof {
                    k = k + 1;
                }
            }
            assert(forall|u: int, v: int| !frames(ls, u, v));
            return None;
        }
        pos = next;
        proof {
            k = k + 1;
        }
    }
    assert(forall|u: int, v: int| !frames(ls, u, v));
    None
}

/// The value of the first member of `members` whose key is `key`.
pub open spec fn member(members: Seq<(Seq<char>, JsonValueView)>, key: Seq<char>) -> Option<
    JsonValueView,
>
    decreases members.len(),
{
    if members.len() == 0 {
        None
    } else if members[0].0 == key {
        Some(members[0].1)
    } else {
        member(members.drop_first(), key)
    }
}

/// The string that `members` must hold under `key`: nothing where the
/// member is absent or is not a string.
pub open spec fn required_text(members: Seq<(Seq<char>, JsonValueView)>, key: Seq<char>) -> Option<
    Seq<char>,
> {
    match member(members, key) {
        Some(JsonValueView::Text(t)) => Some(t),
        _ => None,
    }
}

/// The string that `members` may hold under `key`: absent and `null` both
/// stand for no string; a member of another kind is a failure, the outer
/// `None`.
pub open spec fn optional_text(members: Seq<(Seq<char>, JsonValueView)>, key: Seq<char>) -> Option<
    Option<Seq<char>>,
> {
    match member(members, key) {
        None => Some(None),
        Some(JsonValueView::Null) => Some(None),
        Some(JsonValueView::Text(t)) => Some(Some(t)),
        Some(JsonValueView::Other) => None,
    }
}

/// The descriptor that the members of a params object make up: `name` and
/// `text` are required strings; `id`, `cacheID` and `operationKind` are
/// optional strings; every other member, `metadata` among them, may hold
/// anything.
pub open spec fn params_from(members: Seq<(Seq<char>, JsonValueView)>) -> Option<ParamsView> {
    match (
        required_text(members, "name"@),
        required_text(members, "text"@),
        optional_text(members, "id"@),
        optional_text(members, "cacheID"@),
        optional_text(members, "operationKind"@),
    ) {
        (Some(name), Some(text), Some(id), Some(cache_id), Some(operation_kind)) => Some(
            ParamsView { cache_id, id, name, operation_kind, text },
        ),
        _ => None,
    }
}

/// What the textual extractor reports for a file that holds `contents`: no
/// descriptor where the marker is absent or no params block is framed
/// after it; a failure where the framed block is not a JSON object, or its
/// members do not make up a descriptor; else the descriptor.
pub open spec fn extracted(contents: Seq<char>) -> Result<Option<ParamsView>, Error> {
    match fragment(contents) {
        None => Ok(None),
        Some(f) => match json_object(f) {
            None => Err(Error::ParamSerialization),
            Some(members) => match params_from(members) {
                Some(p) => Ok(Some(p)),
                None => Err(Error::ParamSerialization),
            },
        },
    }
}

/// The value of the first of `members` whose key is `key`.
pub fn lookup<'a>(members: &'a Vec<Member>, key: &str) -> (r: Option<&'a JsonValue>)
    ensures
        match r {
            Some(v) => member(members_view(members@), key@) == Some(v@),
            None => member(members_view(members@), key@) is None,
        },
{
    let wanted = key.to_owned();
    let ghost all = members_view(members@);
    let mut i: usize = 0;
    assert(all.skip(0) =~= all);
    while i < members.len()
        invariant
            i <= members.len(),
            wanted@ == key@,
            all == members_view(members@),
            member(all, key@) == member(all.skip(i as int), key@),
        decreases members.len() - i,
    {
        assert(all.skip(i as int).drop_first() =~= all.skip(i + 1));
        assert(all.skip(i as int)[0] == members@[i as int]@);
        if members[i].key == wanted {
            return Some(&members[i].value);
        }
        i += 1;
    }
    None
}

/// The string that `members` must hold under `key`.
pub fn required(members: &Vec<Member>, key: &str) -> (r: Option<String>)
    ensures
        chars_view(r) == required_text(members_view(members@), key@),
{
    match lookup(members, key) {
        Some(JsonValue::Text(t)) => Some(t.clone()),
        _ => None,
    }
}

/// The string that `members` may hold under `key`; the outer `None` where
/// the member is neither a string nor `null`.
pub fn optional(members: &Vec<Member>, key: &str) -> (r: Option<Option<String>>)
    ensures
        match r {
            Some(t) => optional_text(members_view(members@), key@) == Some(
                chars_view(t),
            ),
            None => optional_text(members_view(members@), key@) is None,
        },
{
    match lookup(members, key) {
        None => Some(None),
        Some(JsonValue::Null) => Some(None),
        Some(JsonValue::Text(t)) => Some(Some(t.clone())),
        Some(JsonValue::Other) => None,
    }
}

/// The descriptor that the members of a params object make up, if they do.
pub fn params_of(members: &Vec<Member>) -> (r: Option<Params>)
    ensures
        match r {
            Some(p) => params_from(members_view(members@)) == Some(p@),
            None => params_from(members_view(members@)) is None,
        },
{
    let name = match required(members, "name") {
        Some(name) => name,
        None => {
            return None;
        },
    };
    let text = match required(members, "text") {
        Some(text) => text,
        None => {
            return None;
        },
    };
    let id = match optional(members, "id") {
        Some(id) => id,
        None => {
            return None;
        },
    };
    let cache_id = match optional(members, "cacheID") {
        Some(cache_id) => cache_id,
        None => {
            return None;
        },
    };
    let operation_kind = match optional(members, "operationKind") {
        Some(operation_kind) => operation_kind,
        None => {
            return None;
        },
    };
    Some(Params { cache_id, id, name, operation_kind, text })
}

/// The textual extractor: frames the params block of a generated file and
/// reads it as a descriptor.
pub fn get_params(contents: &str) -> (r: Result<Option<Params>, Error>)
    ensures
        outcome_view(r) == extracted(contents@),
{
    let raw = match find_params(contents) {
        Some(raw) => raw,
        None => {
            return Ok(None);
        },
    };
    let members = match parse_object(raw.as_str()) {
        Some(members) => members,
        None => {
            return Err(Error::ParamSerialization);
        },
    };
    match params_of(&members) {
        Some(params) => Ok(Some(params)),
        None => Err(Error::ParamSerialization),
    }
}

} // verus!
