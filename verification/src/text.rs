//! Source text and string helpers for the formatter.
use vstd::prelude::*;
use vstd::slice::slice_subrange;
use vstd::utf8::{decode_utf8, valid_utf8};

use crate::ast::Loc;
use crate::width::push_chars;

verus! {

/// What `String::from_utf8_lossy` makes of `bytes`: their UTF-8 decoding,
/// with each invalid sequence replaced by U+FFFD.
pub uninterp spec fn utf8_lossy(bytes: Seq<u8>) -> Seq<char>;

/// `String::from_utf8_lossy(bytes)`, owned. Claimed of it: the result is
/// `utf8_lossy(bytes)`, and for valid UTF-8 it is the decoding of `bytes`.
#[verifier::external_body]
fn lossy_string(bytes: &[u8]) -> (s: String)
    ensures
        s@ == utf8_lossy(bytes@),
        valid_utf8(bytes@) ==> s@ == decode_utf8(bytes@),
{
    String::from_utf8_lossy(bytes).into_owned()
}

/// `String::from_iter` over a vector of characters. Claimed of it: the
/// string holds exactly those characters, in order.
#[verifier::external_body]
pub(crate) fn chars_to_string(chars: Vec<char>) -> (s: String)
    ensures
        s@ == chars@,
{
    String::from_iter(chars)
}

/// The source range `loc` lies within a source of `len` bytes.
pub open spec fn loc_in(loc: Loc, len: nat) -> bool {
    loc.start <= loc.end <= len
}

/// The text of `loc` in `source`.
pub open spec fn loc_text(source: Seq<u8>, loc: Loc) -> Seq<char> {
    utf8_lossy(source.subrange(loc.start as int, loc.end as int))
}

/// Extract the source text of a location as a `String`.
pub fn loc_str(loc: Loc, source: &[u8]) -> (r: String)
    requires
        loc_in(loc, source@.len()),
    ensures
        r@ == loc_text(source@, loc),
{
    let bytes = slice_subrange(source, loc.start, loc.end);
    lossy_string(bytes)
}

/// A name as the parser gives it (bytes), as a `String`.
pub fn name_str(name: &Vec<u8>) -> (r: String)
    ensures
        r@ == utf8_lossy(name@),
{
    lossy_string(name.as_slice())
}

/// The characters of `s` in a vector.
pub fn chars_of(s: &str) -> (v: Vec<char>)
    ensures
        v@ == s@,
{
    let mut v: Vec<char> = Vec::new();
    push_chars(&mut v, s);
    assert(v@ =~= s@);
    v
}

/// `s` and `t` hold the same characters.
pub fn str_eq(s: &str, t: &str) -> (r: bool)
    ensures
        r == (s@ == t@),
{
    let a = s.to_owned();
    let b = t.to_owned();
    a == b
}

/// `s` begins with `prefix`.
pub fn str_starts_with(s: &str, prefix: &str) -> (r: bool)
    ensures
        r == (prefix@.len() <= s@.len() && s@.take(prefix@.len() as int) == prefix@),
{
    let a = chars_of(s);
    let b = chars_of(prefix);
    if b.len() > a.len() {
        return false;
    }
    let mut i: usize = 0;
    while i < b.len()
        invariant
            b.len() <= a.len(),
            i <= b.len(),
            a@ == s@,
            b@ == prefix@,
            forall|k: int| 0 <= k < i ==> a@[k] == b@[k],
        decreases b.len() - i,
    {
        if a[i] != b[i] {
            assert(s@.take(prefix@.len() as int)[i as int] != prefix@[i as int]);
            return false;
        }
        i += 1;
    }
    assert(s@.take(prefix@.len() as int) =~= prefix@);
    true
}

/// `c` has the Unicode `White_Space` property, as `char::is_whitespace` tests.
pub open spec fn is_whitespace(c: char) -> bool {
    let v = c as u32;
    ||| 0x09 <= v <= 0x0D
    ||| v == 0x20
    ||| v == 0x85
    ||| v == 0xA0
    ||| v == 0x1680
    ||| 0x2000 <= v <= 0x200A
    ||| v == 0x2028
    ||| v == 0x2029
    ||| v == 0x202F
    ||| v == 0x205F
    ||| v == 0x3000
}

/// Whether `c` is whitespace.
pub fn is_whitespace_exec(c: char) -> (r: bool)
    ensures
        r == is_whitespace(c),
{
    let v = c as u32;
    (0x09 <= v && v <= 0x0D) || v == 0x20 || v == 0x85 || v == 0xA0 || v == 0x1680 || (0x2000
        <= v && v <= 0x200A) || v == 0x2028 || v == 0x2029 || v == 0x202F || v == 0x205F || v
        == 0x3000
}

/// `s` without its trailing whitespace.
pub open spec fn trim_end_ws(s: Seq<char>) -> Seq<char>
    decreases s.len(),
{
    if s.len() > 0 && is_whitespace(s.last()) {
        trim_end_ws(s.drop_last())
    } else {
        s
    }
}

/// `s` without its trailing whitespace (`str::trim_end`).
pub fn trim_end(s: &str) -> (r: String)
    ensures
        r@ == trim_end_ws(s@),
{
    let mut v = chars_of(s);
    while v.len() > 0 && is_whitespace_exec(v[v.len() - 1])
        invariant
            trim_end_ws(v@) == trim_end_ws(s@),
        decreases v.len(),
    {
        proof {
            assert(v@.last() == v@[v@.len() - 1]);
        }
        v.pop();
    }
    chars_to_string(v)
}

/// `s` without its trailing newlines.
pub open spec fn trim_end_newlines(s: Seq<char>) -> Seq<char>
    decreases s.len(),
{
    if s.len() > 0 && s.last() == '\n' {
        trim_end_newlines(s.drop_last())
    } else {
        s
    }
}

/// `s` without its trailing newlines (`str::trim_end_matches('\n')`).
pub fn trim_newlines_end(s: &str) -> (r: String)
    ensures
        r@ == trim_end_newlines(s@),
{
    let mut v = chars_of(s);
    while v.len() > 0 && v[v.len() - 1] == '\n'
        invariant
            trim_end_newlines(v@) == trim_end_newlines(s@),
        decreases v.len(),
    {
        proof {
            assert(v@.last() == v@[v@.len() - 1]);
        }
        v.pop();
    }
    chars_to_string(v)
}

/// The words of `s` (its maximal runs of non-whitespace) separated by single
/// spaces, as `split_whitespace` then `join(" ")` give; the flag tells
/// whether whitespace follows the last word.
pub open spec fn collapse_ws(s: Seq<char>) -> (Seq<char>, bool)
    decreases s.len(),
{
    if s.len() == 0 {
        (Seq::empty(), false)
    } else {
        let (o, pending) = collapse_ws(s.drop_last());
        let c = s.last();
        if is_whitespace(c) {
            (o, o.len() > 0)
        } else if pending {
            (o.push(' ').push(c), false)
        } else {
            (o.push(c), false)
        }
    }
}

/// `s` with whitespace runs collapsed to single spaces and trimmed.
pub fn normalize_whitespace(s: &str) -> (r: String)
    ensures
        r@ == collapse_ws(s@).0,
{
    let mut out: Vec<char> = Vec::new();
    let mut pending = false;
    let ghost mut seen: Seq<char> = Seq::empty();
    for c in it: s.chars()
        invariant
            it.seq() == s@,
            seen == it.seq().take(it.index() as int),
            (out@, pending) == collapse_ws(seen),
    {
        proof {
            let k = it.index() as int;
            assert(it.seq().take(k + 1) =~= seen.push(c));
            assert(seen.push(c).drop_last() =~= seen);
        }
        if is_whitespace_exec(c) {
            pending = out.len() > 0;
        } else {
            if pending {
                out.push(' ');
            }
            out.push(c);
            pending = false;
        }
        proof {
            seen = seen.push(c);
        }
    }
    proof {
        assert(seen =~= s@);
    }
    chars_to_string(out)
}

/// The number of newline bytes in `s`.
pub open spec fn newline_count(s: Seq<u8>) -> nat
    decreases s.len(),
{
    if s.len() == 0 {
        0
    } else {
        newline_count(s.drop_last()) + if s.last() == 10u8 {
            1nat
        } else {
            0nat
        }
    }
}

/// Count newlines in the byte range `[from, to)` of `source`.
pub fn count_newlines(source: &[u8], from: usize, to: usize) -> (r: usize)
    requires
        from <= to <= source@.len(),
    ensures
        r == newline_count(source@.subrange(from as int, to as int)),
{
    let mut n: usize = 0;
    let mut i: usize = from;
    while i < to
        invariant
            from <= i <= to <= source@.len(),
            n == newline_count(source@.subrange(from as int, i as int)),
            n <= i - from,
        decreases to - i,
    {
        proof {
            assert(source@.subrange(from as int, i + 1).drop_last() =~= source@.subrange(
                from as int,
                i as int,
            ));
        }
        if source[i] == 10u8 {
            n += 1;
        }
        i += 1;
    }
    n
}

/// Whether there is no newline between `prev_end` and `comment_start`: a
/// comment there trails the code that ends at `prev_end`.
pub fn is_trailing_comment(source: &[u8], prev_end: usize, comment_start: usize) -> (r: bool)
    requires
        prev_end <= comment_start <= source@.len(),
    ensures
        r == (newline_count(source@.subrange(prev_end as int, comment_start as int)) == 0),
{
    count_newlines(source, prev_end, comment_start) == 0
}

/// `a` followed by `b`.
pub fn concat_str(a: &str, b: &str) -> (r: String)
    ensures
        r@ == a@ + b@,
{
    let mut s = a.to_owned();
    s.append(b);
    s
}

} // verus!
