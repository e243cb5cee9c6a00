//! Display widths: a column holds one character, so the printer measures
//! text by counting characters. These helpers state and compute that measure.
use vstd::prelude::*;

verus! {

/// The number of columns `c` takes: every character takes one.
pub open spec fn char_width(c: char) -> nat {
    1
}

/// The number of columns `s` takes.
pub open spec fn text_width(s: Seq<char>) -> nat
    decreases s.len(),
{
    if s.len() == 0 {
        0
    } else {
        text_width(s.drop_last()) + char_width(s.last())
    }
}

/// The characters after the last newline of `s` (all of `s` if it has none).
pub open spec fn last_line(s: Seq<char>) -> Seq<char>
    decreases s.len(),
{
    if s.len() == 0 {
        s
    } else if s.last() == '\n' {
        Seq::empty()
    } else {
        last_line(s.drop_last()).push(s.last())
    }
}

/// `n` spaces.
pub open spec fn spaces(n: nat) -> Seq<char> {
    Seq::new(n, |i: int| ' ')
}

/// The width of a concatenation is the sum of the widths.
pub proof fn lemma_text_width_append(a: Seq<char>, b: Seq<char>)
    ensures
        text_width(a + b) == text_width(a) + text_width(b),
    decreases b.len(),
{
    if b.len() == 0 {
        assert(a + b =~= a);
    } else {
        assert((a + b).drop_last() =~= a + b.drop_last());
        lemma_text_width_append(a, b.drop_last());
    }
}

/// The width of a prefix is at most the width of the whole.
pub proof fn lemma_text_width_prefix(s: Seq<char>, k: int)
    requires
        0 <= k <= s.len(),
    ensures
        text_width(s.take(k)) <= text_width(s),
{
    lemma_text_width_append(s.take(k), s.skip(k));
    assert(s.take(k) + s.skip(k) =~= s);
}

/// The last line is at most as wide as the whole text.
pub proof fn lemma_last_line_width(s: Seq<char>)
    ensures
        text_width(last_line(s)) <= text_width(s),
        !s.contains('\n') ==> last_line(s) == s,
    decreases s.len(),
{
    if s.len() > 0 {
        lemma_last_line_width(s.drop_last());
        if s.last() != '\n' {
            let ll = last_line(s.drop_last());
            assert(ll.push(s.last()).drop_last() =~= ll);
            assert(text_width(ll.push(s.last())) == text_width(ll) + char_width(s.last()));
        }
        if !s.contains('\n') {
            assert(!s.drop_last().contains('\n')) by {
                if s.drop_last().contains('\n') {
                    let i = choose|i: int| 0 <= i < s.drop_last().len() && s.drop_last()[i] == '\n';
                    assert(s[i] == '\n');
                }
            }
            assert(s.last() != '\n') by {
                assert(s[s.len() - 1] == s.last());
            }
            assert(s.drop_last().push(s.last()) =~= s);
        }
    }
}

/// The number of columns `c` takes.
pub fn char_width_exec(c: char) -> (w: usize)
    ensures
        w == char_width(c),
        w == 1,
{
    1
}

/// The number of columns `s` takes: its character count.
pub fn str_width(s: &str) -> (w: usize)
    requires
        text_width(s@) <= usize::MAX,
    ensures
        w == text_width(s@),
{
    let mut w: usize = 0;
    for c in it: s.chars()
        invariant
            it.seq() == s@,
            w == text_width(s@.take(it.index() as int)),
            text_width(s@) <= usize::MAX,
    {
        proof {
            let k = it.index() as int;
            assert(s@.take(k + 1).drop_last() =~= s@.take(k));
            lemma_text_width_prefix(s@, k + 1);
        }
        w = w + char_width_exec(c);
    }
    proof {
        assert(s@.take(s@.len() as int) =~= s@);
    }
    w
}

/// The width of `s` is its length.
pub proof fn lemma_text_width_len(s: Seq<char>)
    ensures
        text_width(s) == s.len(),
    decreases s.len(),
{
    if s.len() > 0 {
        lemma_text_width_len(s.drop_last());
    }
}

/// Append the characters of `s` to `out`.
pub fn push_chars(out: &mut Vec<char>, s: &str)
    ensures
        final(out)@ == old(out)@ + s@,
{
    let ghost start = out@;
    for c in it: s.chars()
        invariant
            out@ == start + it.seq().take(it.index() as int),
    {
        out.push(c);
    }
}

/// Append `n` spaces to `out`.
pub fn push_spaces(out: &mut Vec<char>, n: usize)
    ensures
        final(out)@ == old(out)@ + spaces(n as nat),
{
    let ghost start = out@;
    let mut i: usize = 0;
    while i < n
        invariant
            i <= n,
            out@ == start + spaces(i as nat),
        decreases n - i,
    {
        out.push(' ');
        i += 1;
        assert(out@ =~= start + spaces(i as nat));
    }
}

/// Whether `s` holds a newline, and the width of its last line.
pub fn last_line_info(s: &str) -> (r: (bool, usize))
    requires
        text_width(s@) <= usize::MAX,
    ensures
        r.0 == s@.contains('\n'),
        r.1 == text_width(last_line(s@)),
{
    let mut has_newline = false;
    let mut cur: usize = 0;
    let ghost mut seen: Seq<char> = Seq::empty();
    for c in it: s.chars()
        invariant
            seen == it.seq().take(it.index() as int),
            it.seq() == s@,
            has_newline == seen.contains('\n'),
            cur == text_width(last_line(seen)),
            text_width(s@) <= usize::MAX,
    {
        proof {
            let k = it.index() as int;
            assert(it.seq().take(k + 1) =~= seen.push(c));
            assert(seen.push(c).drop_last() =~= seen);
            lemma_last_line_width(seen);
            lemma_text_width_prefix(s@, k);
            lemma_text_width_prefix(s@, k + 1);
            assert(seen.push(c).contains('\n') == (seen.contains('\n') || c == '\n')) by {
                if c == '\n' {
                    assert(seen.push(c)[seen.len() as int] == '\n');
                }
                if seen.push(c).contains('\n') && c != '\n' {
                    let i = choose|i: int| 0 <= i < seen.push(c).len() && seen.push(c)[i] == '\n';
                    assert(seen[i] == '\n');
                }
                if seen.contains('\n') {
                    let i = choose|i: int| 0 <= i < seen.len() && seen[i] == '\n';
                    assert(seen.push(c)[i] == '\n');
                }
            }
        }
        if c == '\n' {
            proof {
                assert(seen.push(c).last() == '\n');
                assert(last_line(seen.push(c)) == Seq::<char>::empty());
            }
            has_newline = true;
            cur = 0;
        } else {
            proof {
                lemma_text_width_append(last_line(seen), seq![c]);
                assert(seq![c].drop_last() =~= Seq::<char>::empty());
                assert(last_line(seen).push(c) =~= last_line(seen) + seq![c]);
                lemma_last_line_width(seen.push(c));
                assert(seen.push(c).last() == c);
                assert(last_line(seen.push(c)) == last_line(seen).push(c));
                assert(last_line(seen).push(c).drop_last() =~= last_line(seen));
            }
            cur = cur + char_width_exec(c);
        }
        proof {
            seen = seen.push(c);
        }
    }
    proof {
        assert(seen =~= s@);
    }
    (has_newline, cur)
}

} // verus!
