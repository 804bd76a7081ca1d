//! A comment on a contract. It gets votes like a contract; nothing else of it changes.

use crate::verified_contract::vote::{cast, VoteSet, VoteType, VoteView};
use vstd::prelude::*;

verus! {

/// A comment: its place in the log of all comments, who wrote it, when, what
/// it says, and the votes on it.
#[derive(Debug)]
pub struct Comment {
    pub id: u64,
    pub author_id: String,
    pub timestamp: u64,
    pub content: String,
    pub votes: VoteSet,
}

/// A comment as a value.
pub struct CommentView {
    pub id: u64,
    pub author_id: Seq<char>,
    pub timestamp: u64,
    pub content: Seq<char>,
    pub votes: Seq<VoteView>,
}

impl CommentView {
    /// The comment as it is posted: without votes.
    pub open spec fn posted(
        id: u64,
        author_id: Seq<char>,
        timestamp: u64,
        content: Seq<char>,
    ) -> CommentView {
        CommentView { id, author_id, timestamp, content, votes: Seq::empty() }
    }

    /// The comment after `vote` was cast on it.
    pub open spec fn with_vote(self, vote: VoteView) -> CommentView {
        CommentView { votes: cast(self.votes, vote), ..self }
    }
}

impl View for Comment {
    type V = CommentView;

    open spec fn view(&self) -> CommentView {
        CommentView {
            id: self.id,
            author_id: self.author_id@,
            timestamp: self.timestamp,
            content: self.content@,
            votes: self.votes@,
        }
    }
}

impl Clone for Comment {
    fn clone(&self) -> (r: Self)
        ensures
            r@ == self@,
    {
        Comment {
            id: self.id,
            author_id: self.author_id.clone(),
            timestamp: self.timestamp,
            content: self.content.clone(),
            votes: self.votes.clone(),
        }
    }
}

impl Comment {
    /// No account has two votes on the comment.
    pub open spec fn wf(&self) -> bool {
        self.votes.wf()
    }

    /// The comment as it is posted: `content` as it is, and no votes.
    pub fn new(id: u64, author_id: String, timestamp: u64, content: String) -> (r: Comment)
        ensures
            r.wf(),
            r@ == CommentView::posted(id, author_id@, timestamp, content@),
    {
        Comment { id, author_id, timestamp, content, votes: VoteSet::new() }
    }

    /// Casts the vote of `author_id` on the comment, in place of the vote that
    /// the account had on it.
    pub fn vote(&mut self, author_id: String, timestamp: u64, is_upvote: bool)
        requires
            old(self).wf(),
        ensures
            final(self).wf(),
            final(self)@ == old(self)@.with_vote(
                VoteView { author_id: author_id@, timestamp, vote_type: VoteType::of(is_upvote) },
            ),
    {
        self.votes.update_or_insert_vote(author_id, timestamp, is_upvote);
    }
}

} // verus!
