//! What the registry keeps of one contract, and the votes and comments on it.

pub mod comment;
pub mod vote;

use crate::verified_contract::vote::{cast, VoteSet, VoteType, VoteView};
use vstd::prelude::*;

verus! {

/// The record of one contract: where its source is, what its code hashes to,
/// the block at which it was verified, its language, the votes on it, and the
/// ids of the comments on it in the order of their posting.
#[derive(Debug)]
pub struct VerifiedContract {
    pub cid: String,
    pub lang: String,
    pub code_hash: String,
    pub block_height: u64,
    pub votes: VoteSet,
    pub comments: Vec<u64>,
}

/// A record as a value.
pub struct ContractView {
    pub cid: Seq<char>,
    pub lang: Seq<char>,
    pub code_hash: Seq<char>,
    pub block_height: u64,
    pub votes: Seq<VoteView>,
    pub comments: Seq<u64>,
}

impl ContractView {
    /// The record that a registration leaves where `existing` was registered
    /// before: the new data of the contract, with the votes and the comments
    /// that were there, or with none where nothing was registered.
    pub open spec fn registered(
        existing: Option<ContractView>,
        cid: Seq<char>,
        code_hash: Seq<char>,
        block_height: u64,
        lang: Seq<char>,
    ) -> ContractView {
        ContractView {
            cid,
            lang,
            code_hash,
            block_height,
            votes: match existing {
                Some(record) => record.votes,
                None => Seq::empty(),
            },
            comments: match existing {
                Some(record) => record.comments,
                None => Seq::empty(),
            },
        }
    }

    /// The record after `vote` was cast on it.
    pub open spec fn with_vote(self, vote: VoteView) -> ContractView {
        ContractView { votes: cast(self.votes, vote), ..self }
    }

    /// The record after the comment `id` was posted on it.
    pub open spec fn with_comment(self, id: u64) -> ContractView {
        ContractView { comments: self.comments.push(id), ..self }
    }
}

impl View for VerifiedContract {
    type V = ContractView;

    open spec fn view(&self) -> ContractView {
        ContractView {
            cid: self.cid@,
            lang: self.lang@,
            code_hash: self.code_hash@,
            block_height: self.block_height,
            votes: self.votes@,
            comments: self.comments@,
        }
    }
}

impl Clone for VerifiedContract {
    fn clone(&self) -> (r: Self)
        ensures
            r@ == self@,
    {
        VerifiedContract {
            cid: self.cid.clone(),
            lang: self.lang.clone(),
            code_hash: self.code_hash.clone(),
            block_height: self.block_height,
            votes: self.votes.clone(),
            comments: self.comments.clone(),
        }
    }
}

impl VerifiedContract {
    /// No account has two votes on the contract.
    pub open spec fn wf(&self) -> bool {
        self.votes.wf()
    }

    /// The record that a registration leaves where `existing` was registered
    /// before: it keeps the votes and the comments, and nothing else.
    pub fn registered(
        existing: Option<&VerifiedContract>,
        cid: String,
        code_hash: String,
        block_height: u64,
        lang: String,
    ) -> (r: VerifiedContract)
        requires
            existing matches Some(record) ==> record.wf(),
        ensures
            r.wf(),
            r@ == ContractView::registered(
                match existing {
                    Some(record) => Some(record@),
                    None => None,
                },
                cid@,
                code_hash@,
                block_height,
                lang@,
            ),
    {
        match existing {
            Some(record) => VerifiedContract {
                cid,
                lang,
                code_hash,
                block_height,
                votes: record.votes.clone(),
                comments: record.comments.clone(),
            },
            None => VerifiedContract {
                cid,
                lang,
                code_hash,
                block_height,
                votes: VoteSet::new(),
                comments: Vec::new(),
            },
        }
    }

    /// Casts the vote of `author_id` on the contract, in place of the vote that
    /// the account had on it.
    pub fn vote(&mut self, author_id: String, timestamp: u64, is_upvote: bool)
        requires
            old(self).wf(),
        ensures
            final(self).wf(),
            final(self)@ == old(self)@.with_vote(
                VoteView { author_id: author_id@, timestamp, vote_type: VoteType::of(is_upvote) },
            ),
    {
        self.votes.update_or_insert_vote(author_id, timestamp, is_upvote);
    }
}

} // verus!
