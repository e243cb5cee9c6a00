//! Source comments and the record of which ones the formatter has placed.
use vstd::prelude::*;

verus! {

broadcast use vstd::std_specs::vec::group_vec_axioms;

/// Information about a source comment.
#[derive(Debug)]
pub struct CommentInfo {
    pub start_offset: usize,
    pub end_offset: usize,
    /// The full comment text including the `#` prefix.
    pub text: String,
    /// `true` for `# ...` inline comments, `false` for `=begin...=end` embedded docs.
    pub is_inline: bool,
}

/// The value of a comment.
pub struct CommentView {
    pub start: nat,
    pub end: nat,
    pub text: Seq<char>,
    pub is_inline: bool,
}

impl View for CommentInfo {
    type V = CommentView;

    open spec fn view(&self) -> CommentView {
        CommentView {
            start: self.start_offset as nat,
            end: self.end_offset as nat,
            text: self.text@,
            is_inline: self.is_inline,
        }
    }
}

impl Clone for CommentInfo {
    fn clone(&self) -> (r: Self)
        ensures
            r@ == self@,
    {
        CommentInfo {
            start_offset: self.start_offset,
            end_offset: self.end_offset,
            text: self.text.clone(),
            is_inline: self.is_inline,
        }
    }
}

/// The values of a sequence of comments.
pub open spec fn comments_view(cs: Seq<CommentInfo>) -> Seq<CommentView> {
    cs.map_values(|c: CommentInfo| c@)
}

/// The comments of a formatting pass and, for each, whether it has been
/// placed in the output already.
pub struct CommentTracker {
    pub comments: Vec<CommentInfo>,
    pub consumed: Vec<bool>,
}

impl CommentTracker {
    /// One flag per comment.
    pub open spec fn wf(&self) -> bool {
        self.consumed@.len() == self.comments@.len()
    }

    /// The comments.
    pub open spec fn all(&self) -> Seq<CommentView> {
        comments_view(self.comments@)
    }
}

/// What taking the unplaced comments among `cs[..i]` that start in
/// `[from, to)` gives: those comments in order, and the new flags.
pub open spec fn take_between(cs: Seq<CommentView>, consumed: Seq<bool>, from: int, to: int, i: int) -> (
    Seq<CommentView>,
    Seq<bool>,
)
    decreases i,
{
    if i <= 0 {
        (Seq::empty(), consumed)
    } else {
        let (taken, flags) = take_between(cs, consumed, from, to, i - 1);
        let k = i - 1;
        if !flags[k] && from <= cs[k].start && cs[k].start < to {
            (taken.push(cs[k]), flags.update(k, true))
        } else {
            (taken, flags)
        }
    }
}

/// What taking every unplaced comment among `cs[..i]` gives.
pub open spec fn take_all(cs: Seq<CommentView>, consumed: Seq<bool>, i: int) -> (
    Seq<CommentView>,
    Seq<bool>,
)
    decreases i,
{
    if i <= 0 {
        (Seq::empty(), consumed)
    } else {
        let (taken, flags) = take_all(cs, consumed, i - 1);
        let k = i - 1;
        if !flags[k] {
            (taken.push(cs[k]), flags.update(k, true))
        } else {
            (taken, flags)
        }
    }
}

/// The flags keep their length.
pub proof fn lemma_take_between_len(cs: Seq<CommentView>, consumed: Seq<bool>, from: int, to: int, i: int)
    requires
        i <= consumed.len(),
    ensures
        take_between(cs, consumed, from, to, i).1.len() == consumed.len(),
    decreases i,
{
    if i > 0 {
        lemma_take_between_len(cs, consumed, from, to, i - 1);
    }
}

/// The flags keep their length.
pub proof fn lemma_take_all_len(cs: Seq<CommentView>, consumed: Seq<bool>, i: int)
    requires
        i <= consumed.len(),
    ensures
        take_all(cs, consumed, i).1.len() == consumed.len(),
    decreases i,
{
    if i > 0 {
        lemma_take_all_len(cs, consumed, i - 1);
    }
}

/// Start a formatting pass over `comments`, none of them placed yet.
pub fn with_comments(comments: &Vec<CommentInfo>) -> (t: CommentTracker)
    ensures
        t.wf(),
        t.all() == comments_view(comments@),
        t.consumed@ == Seq::new(comments@.len(), |i: int| false),
{
    let mut copy: Vec<CommentInfo> = Vec::new();
    let mut consumed: Vec<bool> = Vec::new();
    let mut i: usize = 0;
    while i < comments.len()
        invariant
            i <= comments.len(),
            copy@.len() == i,
            forall|k: int| 0 <= k < i ==> #[trigger] copy@[k]@ == comments@[k]@,
            consumed@ == Seq::new(i as nat, |k: int| false),
        decreases comments.len() - i,
    {
        let c = comments[i].clone();
        copy.push(c);
        consumed.push(false);
        i += 1;
        assert(consumed@ =~= Seq::new(i as nat, |k: int| false));
    }
    assert(comments_view(copy@) =~= comments_view(comments@));
    CommentTracker { comments: copy, consumed }
}

/// Return all comments whose start offset is in `[from, to)` that have not
/// been placed yet, and mark them placed.
pub fn take_comments_between(tracker: &mut CommentTracker, from: usize, to: usize) -> (r: Vec<
    CommentInfo,
>)
    requires
        old(tracker).wf(),
    ensures
        final(tracker).wf(),
        final(tracker).all() == old(tracker).all(),
        (comments_view(r@), final(tracker).consumed@) == take_between(
            old(tracker).all(),
            old(tracker).consumed@,
            from as int,
            to as int,
            old(tracker).comments@.len() as int,
        ),
{
    let ghost cs = tracker.all();
    let ghost c0 = tracker.consumed@;
    let mut result: Vec<CommentInfo> = Vec::new();
    let mut i: usize = 0;
    while i < tracker.comments.len()
        invariant
            tracker.wf(),
            tracker.all() == cs,
            c0.len() == cs.len(),
            cs.len() == tracker.comments@.len(),
            i <= tracker.comments.len(),
            (comments_view(result@), tracker.consumed@) == take_between(
                cs,
                c0,
                from as int,
                to as int,
                i as int,
            ),
        decreases tracker.comments.len() - i,
    {
        proof {
            lemma_take_between_len(cs, c0, from as int, to as int, i as int);
        }
        let c = &tracker.comments[i];
        assert(cs[i as int] == tracker.comments@[i as int]@);
        if !tracker.consumed[i] && c.start_offset >= from && c.start_offset < to {
            let copy = c.clone();
            tracker.consumed.set(i, true);
            result.push(copy);
            assert(comments_view(result@) =~= take_between(
                cs,
                c0,
                from as int,
                to as int,
                i + 1,
            ).0);
        }
        i += 1;
    }
    result
}

/// Return all remaining unplaced comments and mark them placed.
pub fn take_remaining_comments(tracker: &mut CommentTracker) -> (r: Vec<CommentInfo>)
    requires
        old(tracker).wf(),
    ensures
        final(tracker).wf(),
        final(tracker).all() == old(tracker).all(),
        (comments_view(r@), final(tracker).consumed@) == take_all(
            old(tracker).all(),
            old(tracker).consumed@,
            old(tracker).comments@.len() as int,
        ),
{
    let ghost cs = tracker.all();
    let ghost c0 = tracker.consumed@;
    let mut result: Vec<CommentInfo> = Vec::new();
    let mut i: usize = 0;
    while i < tracker.comments.len()
        invariant
            tracker.wf(),
            tracker.all() == cs,
            c0.len() == cs.len(),
            cs.len() == tracker.comments@.len(),
            i <= tracker.comments.len(),
            (comments_view(result@), tracker.consumed@) == take_all(cs, c0, i as int),
        decreases tracker.comments.len() - i,
    {
        proof {
            lemma_take_all_len(cs, c0, i as int);
        }
        assert(cs[i as int] == tracker.comments@[i as int]@);
        if !tracker.consumed[i] {
            let copy = tracker.comments[i].clone();
            tracker.consumed.set(i, true);
            result.push(copy);
            assert(comments_view(result@) =~= take_all(cs, c0, i + 1).0);
        }
        i += 1;
    }
    result
}

/// At the end of a pass no comment is left unplaced: the final sweep
/// takes every comment that nothing took before.
pub proof fn law_all_comments_placed(cs: Seq<CommentView>, consumed: Seq<bool>)
    requires
        consumed.len() == cs.len(),
    ensures
        take_all(cs, consumed, cs.len() as int).1 == Seq::new(cs.len(), |k: int| true),
{
    lemma_take_all_marks(cs, consumed, cs.len() as int);
    assert(take_all(cs, consumed, cs.len() as int).1 =~= Seq::new(cs.len(), |k: int| true));
}

/// A sweep over `cs[..i]` marks each of them and leaves the others as they were.
proof fn lemma_take_all_marks(cs: Seq<CommentView>, consumed: Seq<bool>, i: int)
    requires
        0 <= i <= consumed.len(),
    ensures
        take_all(cs, consumed, i).1.len() == consumed.len(),
        forall|k: int| 0 <= k < i ==> #[trigger] take_all(cs, consumed, i).1[k],
        forall|k: int| i <= k < consumed.len() ==> #[trigger] take_all(cs, consumed, i).1[k] == consumed[k],
    decreases i,
{
    if i > 0 {
        lemma_take_all_marks(cs, consumed, i - 1);
    }
}

/// Taking the comments of a range places exactly those that start in it;
/// the others keep their flags, so no comment is placed twice and none
/// outside the range is touched.
pub proof fn law_take_places_range(cs: Seq<CommentView>, consumed: Seq<bool>, from: int, to: int)
    requires
        consumed.len() == cs.len(),
    ensures
        take_between(cs, consumed, from, to, cs.len() as int).1 == Seq::new(
            cs.len(),
            |k: int| consumed[k] || (from <= cs[k].start && cs[k].start < to),
        ),
{
    lemma_take_between_marks(cs, consumed, from, to, cs.len() as int);
    assert(take_between(cs, consumed, from, to, cs.len() as int).1 =~= Seq::new(
        cs.len(),
        |k: int| consumed[k] || (from <= cs[k].start && cs[k].start < to),
    ));
}

/// A take over `cs[..i]` marks those in the range and leaves the others.
proof fn lemma_take_between_marks(cs: Seq<CommentView>, consumed: Seq<bool>, from: int, to: int, i: int)
    requires
        0 <= i <= consumed.len(),
        consumed.len() == cs.len(),
    ensures
        take_between(cs, consumed, from, to, i).1.len() == consumed.len(),
        forall|k: int|
            0 <= k < i ==> #[trigger] take_between(cs, consumed, from, to, i).1[k] == (consumed[k] || (
            from <= cs[k].start && cs[k].start < to)),
        forall|k: int|
            i <= k < consumed.len() ==> #[trigger] take_between(cs, consumed, from, to, i).1[k]
                == consumed[k],
    decreases i,
{
    if i > 0 {
        lemma_take_between_marks(cs, consumed, from, to, i - 1);
    }
}

/// A take over `cs[..i]` where every comment of the range is placed
/// already gives nothing and changes no flag.
proof fn lemma_take_between_none(cs: Seq<CommentView>, flags: Seq<bool>, from: int, to: int, i: int)
    requires
        0 <= i <= flags.len(),
        flags.len() == cs.len(),
        forall|k: int| 0 <= k < i && from <= cs[k].start && cs[k].start < to ==> #[trigger] flags[k],
    ensures
        take_between(cs, flags, from, to, i).0.len() == 0,
        take_between(cs, flags, from, to, i).1 == flags,
    decreases i,
{
    if i > 0 {
        lemma_take_between_none(cs, flags, from, to, i - 1);
    }
}

/// Taking the comments of a range a second time gives nothing: the first
/// take placed every comment that starts in it.
pub proof fn law_take_again_gives_nothing(cs: Seq<CommentView>, consumed: Seq<bool>, from: int, to: int)
    requires
        consumed.len() == cs.len(),
    ensures
        ({
            let placed = take_between(cs, consumed, from, to, cs.len() as int).1;
            &&& take_between(cs, placed, from, to, cs.len() as int).0.len() == 0
            &&& take_between(cs, placed, from, to, cs.len() as int).1 == placed
        }),
{
    law_take_places_range(cs, consumed, from, to);
    let placed = take_between(cs, consumed, from, to, cs.len() as int).1;
    assert forall|k: int| 0 <= k < cs.len() && from <= cs[k].start && cs[k].start < to implies #[trigger] placed[k] by {
    }
    lemma_take_between_none(cs, placed, from, to, cs.len() as int);
}

/// The comments among `cs[..i]` that were not placed `before` and are
/// placed `after`, in order.
pub open spec fn newly_placed(cs: Seq<CommentView>, before: Seq<bool>, after: Seq<bool>, i: int) -> Seq<
    CommentView,
>
    decreases i,
{
    if i <= 0 {
        Seq::empty()
    } else {
        let p = newly_placed(cs, before, after, i - 1);
        if !before[i - 1] && after[i - 1] {
            p.push(cs[i - 1])
        } else {
            p
        }
    }
}

/// A take over `cs[..i]` gives the comments whose marks the whole take sets.
proof fn lemma_take_between_newly(
    cs: Seq<CommentView>,
    consumed: Seq<bool>,
    after: Seq<bool>,
    from: int,
    to: int,
    i: int,
)
    requires
        0 <= i <= consumed.len(),
        consumed.len() == cs.len(),
        after.len() == cs.len(),
        forall|k: int|
            0 <= k < cs.len() ==> #[trigger] after[k] == (consumed[k] || (from <= cs[k].start
                && cs[k].start < to)),
    ensures
        take_between(cs, consumed, from, to, i).0 == newly_placed(cs, consumed, after, i),
    decreases i,
{
    if i > 0 {
        lemma_take_between_newly(cs, consumed, after, from, to, i - 1);
        lemma_take_between_marks(cs, consumed, from, to, i - 1);
        assert(take_between(cs, consumed, from, to, i - 1).1[i - 1] == consumed[i - 1]);
        assert(after[i - 1] == (consumed[i - 1] || (from <= cs[i - 1].start && cs[i - 1].start < to)));
    }
}

/// No comment is handed out twice in a pass: a take gives exactly the
/// comments whose marks it sets, in order, and never clears the mark of
/// one placed before, so a comment it gives is never given again.
pub proof fn law_take_gives_only_unplaced(cs: Seq<CommentView>, consumed: Seq<bool>, from: int, to: int)
    requires
        consumed.len() == cs.len(),
    ensures
        forall|k: int|
            0 <= k < cs.len() && consumed[k] ==> #[trigger] take_between(
                cs,
                consumed,
                from,
                to,
                cs.len() as int,
            ).1[k],
        take_between(cs, consumed, from, to, cs.len() as int).0 == newly_placed(
            cs,
            consumed,
            take_between(cs, consumed, from, to, cs.len() as int).1,
            cs.len() as int,
        ),
{
    let n = cs.len() as int;
    lemma_take_between_marks(cs, consumed, from, to, n);
    lemma_take_between_newly(cs, consumed, take_between(cs, consumed, from, to, n).1, from, to, n);
}

} // verus!
