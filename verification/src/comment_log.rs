//! The log of all comments, on whatever contract: a comment's id is its place
//! in the log. Comments are added at the end and never leave.

use crate::error::Error;
use crate::pagination::{page, page_range};
use crate::ranking::{counts, places, ranking, ranking_of, ranking_of_shows_each_once};
use crate::verified_contract::comment::{Comment, CommentView};
use crate::verified_contract::vote::{distinct_voters, upvotes, VoteType, VoteView};
use vstd::prelude::*;

verus! {

/// Each comment of `log` has its place as its id, and no account has two votes on one.
pub open spec fn valid_log(log: Seq<CommentView>) -> bool {
    forall|i: int|
        0 <= i < log.len() ==> (#[trigger] log[i]).id == i && distinct_voters(log[i].votes)
}

/// The comments of `log` that have the ids `ids`, in the order of `ids`.
pub open spec fn resolved(log: Seq<CommentView>, ids: Seq<u64>) -> Seq<CommentView> {
    ids.map_values(|id: u64| log[id as int])
}

/// How many upvotes each of `comments` has.
pub open spec fn upvote_counts(comments: Seq<CommentView>) -> Seq<nat> {
    comments.map_values(|comment: CommentView| upvotes(comment.votes).len())
}

/// `posted` in the order in which the comments are shown: most upvotes first,
/// and among comments with as many upvotes the one that was posted first.
pub open spec fn ranked(posted: Seq<CommentView>) -> Seq<CommentView> {
    ranking_of(upvote_counts(posted)).map_values(|at: int| posted[at])
}

/// Comments as values.
pub open spec fn comment_views(comments: Seq<Comment>) -> Seq<CommentView> {
    comments.map_values(|comment: Comment| comment@)
}

/// The comments are shown by falling upvotes, and each of them is shown:
/// as many are shown as were posted, and each that was posted is among them.
pub proof fn ranked_is_sorted_by_upvotes(posted: Seq<CommentView>)
    ensures
        ranked(posted).len() == posted.len(),
        forall|i: int, j: int|
            0 <= i < j < posted.len() ==> upvotes((#[trigger] ranked(posted)[i]).votes).len()
                >= upvotes((#[trigger] ranked(posted)[j]).votes).len(),
        forall|at: int| 0 <= at < posted.len() ==> ranked(posted).contains(#[trigger] posted[at]),
        forall|k: int| 0 <= k < posted.len() ==> posted.contains(#[trigger] ranked(posted)[k]),
{
    let numbers = upvote_counts(posted);
    let order = ranking_of(numbers);
    let shown = ranked(posted);
    ranking_of_shows_each_once(numbers);
    assert forall|i: int, j: int| 0 <= i < j < posted.len() implies upvotes(
        (#[trigger] shown[i]).votes,
    ).len() >= upvotes((#[trigger] shown[j]).votes).len() by {
        assert(numbers[order[i]] >= numbers[order[j]]);
    }
    assert forall|at: int| 0 <= at < posted.len() implies shown.contains(#[trigger] posted[at]) by {
        assert(order.contains(at));
        let k = choose|k: int| 0 <= k < order.len() && order[k] == at;
        assert(shown[k] == posted[at]);
    }
    assert forall|k: int| 0 <= k < posted.len() implies posted.contains(#[trigger] shown[k]) by {
        assert(0 <= order[k] < posted.len());
        assert(posted[order[k]] == shown[k]);
    }
}

/// The comments in the order in which they are shown: most upvotes first, and
/// among comments with as many upvotes the one that stands first in `posted`.
pub fn rank_comments(posted: &Vec<Comment>) -> (r: Vec<Comment>)
    ensures
        comment_views(r@) == ranked(comment_views(posted@)),
{
    let mut numbers: Vec<usize> = Vec::new();
    let mut at: usize = 0;
    while at < posted.len()
        invariant
            at <= posted.len(),
            numbers.len() == at,
            forall|i: int| 0 <= i < at ==> numbers[i] == upvotes(posted[i]@.votes).len(),
        decreases posted.len() - at,
    {
        numbers.push(posted[at].votes.upvote_count());
        at += 1;
    }
    assert(counts(numbers@) =~= upvote_counts(comment_views(posted@)));
    let order = ranking(&numbers);
    let ghost shown = ranked(comment_views(posted@));
    assert forall|i: int| 0 <= i < order.len() implies (#[trigger] order[i]) < posted.len() by {
        assert(places(order@)[i] == order[i]);
    }
    let mut out: Vec<Comment> = Vec::new();
    let mut k: usize = 0;
    while k < order.len()
        invariant
            k <= order.len() == posted.len(),
            places(order@) == ranking_of(upvote_counts(comment_views(posted@))),
            forall|i: int| 0 <= i < order.len() ==> (#[trigger] order[i]) < posted.len(),
            shown == ranked(comment_views(posted@)),
            comment_views(out@) == shown.take(k as int),
        decreases order.len() - k,
    {
        let comment = posted[order[k]].clone();
        let ghost before = out@;
        out.push(comment);
        proof {
            assert(places(order@)[k as int] == order[k as int] as int);
            assert(comment_views(out@) =~= comment_views(before).push(comment@));
            assert(shown.take(k as int).push(shown[k as int]) =~= shown.take(k + 1));
        }
        k += 1;
    }
    assert(shown.take(k as int) =~= shown);
    out
}

/// The page of `comments` that starts at `from_index` and holds at most `limit` of them.
pub fn page_of_comments(comments: &Vec<Comment>, from_index: usize, limit: usize) -> (r: Vec<
    Comment,
>)
    ensures
        comment_views(r@) == page(comment_views(comments@), from_index as nat, limit as nat),
{
    let (start, end) = page_range(comments.len(), from_index, limit);
    let mut out: Vec<Comment> = Vec::new();
    let mut at: usize = start;
    while at < end
        invariant
            start <= at <= end <= comments.len(),
            comment_views(out@) == comment_views(comments@).subrange(start as int, at as int),
        decreases end - at,
    {
        let comment = comments[at].clone();
        let ghost before = out@;
        out.push(comment);
        assert(comment_views(out@) =~= comment_views(before).push(comment@));
        assert(comment_views(out@) =~= comment_views(comments@).subrange(start as int, at + 1));
        at += 1;
    }
    out
}

/// Whether each of `comments` has its place as its id, and no account has two votes on one.
fn has_valid_log(comments: &Vec<Comment>) -> (r: bool)
    ensures
        r == valid_log(comment_views(comments@)),
{
    let ghost views = comment_views(comments@);
    let mut at: usize = 0;
    while at < comments.len()
        invariant
            at <= comments.len(),
            views == comment_views(comments@),
            forall|i: int|
                0 <= i < at ==> (#[trigger] views[i]).id == i && distinct_voters(views[i].votes),
        decreases comments.len() - at,
    {
        if comments[at].id != at as u64 || !comments[at].votes.is_valid() {
            assert(!(views[at as int].id == at && distinct_voters(views[at as int].votes)));
            return false;
        }
        at += 1;
    }
    true
}

/// The log of all comments.
#[derive(Debug)]
pub struct CommentLog {
    comments: Vec<Comment>,
}

impl View for CommentLog {
    type V = Seq<CommentView>;

    closed spec fn view(&self) -> Seq<CommentView> {
        comment_views(self.comments@)
    }
}

impl CommentLog {
    /// Each comment has its place as its id, and no account has two votes on one.
    pub open spec fn wf(&self) -> bool {
        valid_log(self@)
    }

    /// No comments.
    pub fn new() -> (r: CommentLog)
        ensures
            r.wf(),
            r@ == Seq::<CommentView>::empty(),
    {
        let r = CommentLog { comments: Vec::new() };
        assert(r@ =~= Seq::<CommentView>::empty());
        r
    }

    /// The log of the comments `comments` as they stand, where each has its
    /// place as its id and no account has two votes on one.
    pub fn from_comments(comments: Vec<Comment>) -> (r: Option<CommentLog>)
        ensures
            r is Some <==> valid_log(comment_views(comments@)),
            r matches Some(log) ==> log.wf() && log@ == comment_views(comments@),
    {
        if has_valid_log(&comments) {
            Some(CommentLog { comments })
        } else {
            None
        }
    }

    /// The comments, in the order of their posting.
    pub fn as_slice(&self) -> (r: &[Comment])
        ensures
            comment_views(r@) == self@,
    {
        self.comments.as_slice()
    }

    /// How many comments were posted.
    pub fn len(&self) -> (r: usize)
        ensures
            r == self@.len(),
    {
        self.comments.len()
    }

    /// The comment with the id `id`, if one has it.
    pub fn get(&self, id: u64) -> (r: Option<&Comment>)
        ensures
            match r {
                Some(comment) => id < self@.len() && comment@ == self@[id as int],
                None => id >= self@.len(),
            },
    {
        if id < self.comments.len() as u64 {
            Some(&self.comments[id as usize])
        } else {
            None
        }
    }

    /// Adds a comment at the end of the log and returns its id: the number of
    /// comments that were there before it.
    pub fn push(&mut self, author_id: String, timestamp: u64, content: String) -> (id: u64)
        requires
            old(self).wf(),
        ensures
            final(self).wf(),
            id == old(self)@.len(),
            final(self)@ == old(self)@.push(
                CommentView::posted(id, author_id@, timestamp, content@),
            ),
    {
        let id = self.comments.len() as u64;
        let comment = Comment::new(id, author_id, timestamp, content);
        self.comments.push(comment);
        assert(self@ =~= old(self)@.push(comment@));
        assert forall|i: int| 0 <= i < self@.len() implies (#[trigger] self@[i]).id == i
            && distinct_voters(self@[i].votes) by {
            if i < old(self)@.len() {
                assert(self@[i] == old(self)@[i]);
            }
        }
        id
    }

    /// Casts the vote of `author_id` on the comment `id`, in place of the vote
    /// that the account had on it. There has to be such a comment.
    pub fn vote(&mut self, id: u64, author_id: String, timestamp: u64, is_upvote: bool) -> (r:
        Result<(), Error>)
        requires
            old(self).wf(),
        ensures
            final(self).wf(),
            r is Err <==> id >= old(self)@.len(),
            r matches Err(e) ==> e == Error::NotFound && final(self)@ == old(self)@,
            r is Ok ==> final(self)@ == old(self)@.update(
                id as int,
                old(self)@[id as int].with_vote(
                    VoteView {
                        author_id: author_id@,
                        timestamp,
                        vote_type: VoteType::of(is_upvote),
                    },
                ),
            ),
    {
        if id >= self.comments.len() as u64 {
            return Err(Error::NotFound);
        }
        let at = id as usize;
        assert(self@[at as int].id == at);
        let mut comment = self.comments[at].clone();
        comment.vote(author_id, timestamp, is_upvote);
        self.comments.set(at, comment);
        assert(self@ =~= old(self)@.update(at as int, comment@));
        assert forall|i: int| 0 <= i < self@.len() implies (#[trigger] self@[i]).id == i
            && distinct_voters(self@[i].votes) by {
            if i != at {
                assert(self@[i] == old(self)@[i]);
            }
        }
        Ok(())
    }

    /// The comments that have the ids `ids`, in the order of `ids`. Each id has
    /// to be that of a comment.
    pub fn resolve(&self, ids: &Vec<u64>) -> (r: Vec<Comment>)
        requires
            forall|i: int| 0 <= i < ids.len() ==> ids[i] < self@.len(),
        ensures
            comment_views(r@) == resolved(self@, ids@),
    {
        let mut out: Vec<Comment> = Vec::new();
        let mut at: usize = 0;
        while at < ids.len()
            invariant
                at <= ids.len(),
                forall|i: int| 0 <= i < ids.len() ==> ids[i] < self@.len(),
                comment_views(out@) == resolved(self@, ids@).take(at as int),
            decreases ids.len() - at,
        {
            let id = ids[at];
            assert(id < self.comments.len());
            let comment = self.comments[id as usize].clone();
            let ghost before = out@;
            out.push(comment);
            proof {
                assert(comment_views(out@) =~= comment_views(before).push(comment@));
                assert(resolved(self@, ids@).take(at as int).push(comment@) =~= resolved(
                    self@,
                    ids@,
                ).take(at + 1));
            }
            at += 1;
        }
        assert(resolved(self@, ids@).take(at as int) =~= resolved(self@, ids@));
        out
    }
}

} // verus!
