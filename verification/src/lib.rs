//! A registry of verified contracts, keyed by account, with the votes and the
//! comments that accounts leave on them.
//!
//! [`SourceScan`] is the whole state: the owner, the contracts and the log of
//! comments. Who calls and at what time is not known here: each operation
//! takes them as arguments. An operation that is refused changes nothing.

pub mod comment_log;
pub mod error;
pub mod pagination;
pub mod ranking;
pub mod registry;
pub mod search;
pub mod verified_contract;

use crate::comment_log::{
    comment_views, page_of_comments, rank_comments, ranked, resolved, valid_log, CommentLog,
};
use crate::error::Error;
use crate::pagination::{page, page_count, pages};
use crate::registry::{
    entry_views, has_key, index_of, key_stands_once, matching, page_of_entries, record_of,
    removed, upserted, upserted_sets_one_record, valid_entries, EntryView, Registry,
};
use crate::verified_contract::comment::{Comment, CommentView};
use crate::verified_contract::vote::{
    distinct_voters, second_vote_replaces_first, votes_of, VoteType, VoteView,
};
use crate::verified_contract::{ContractView, VerifiedContract};
use vstd::prelude::*;

verus! {

/// What a registration did: it added a contract, or updated one that was there.
#[derive(Clone, Copy, PartialEq, Eq, Structural, Debug)]
pub enum Registered {
    Added,
    Updated,
}

/// Each id that a contract lists as one of its comments is below `comments`.
pub open spec fn ids_resolve(contracts: Seq<EntryView>, comments: nat) -> bool {
    forall|i: int, k: int|
        0 <= i < contracts.len() && 0 <= k < contracts[i].1.comments.len()
            ==> #[trigger] contracts[i].1.comments[k] < comments
}

/// The state as a value: the owner, the contracts in their order, and the log of comments.
pub struct ScanView {
    pub owner_id: Seq<char>,
    pub contracts: Seq<EntryView>,
    pub comments: Seq<CommentView>,
}

impl ScanView {
    /// No account has two contracts, or two votes on one target; each comment
    /// has its place in the log as its id; and each comment that a contract
    /// lists is in the log.
    pub open spec fn valid(self) -> bool {
        &&& valid_entries(self.contracts)
        &&& valid_log(self.comments)
        &&& ids_resolve(self.contracts, self.comments.len())
    }

    /// The state that `owner_id` starts with: no contracts and no comments.
    pub open spec fn initial(owner_id: Seq<char>) -> ScanView {
        ScanView { owner_id, contracts: Seq::empty(), comments: Seq::empty() }
    }

    /// The state with another owner.
    pub open spec fn with_owner(self, owner_id: Seq<char>) -> ScanView {
        ScanView { owner_id, ..self }
    }

    /// The state after the contract of `key` was registered: what was known of
    /// it is replaced, but for the votes and the comments on it.
    pub open spec fn with_contract(
        self,
        key: Seq<char>,
        cid: Seq<char>,
        code_hash: Seq<char>,
        block_height: u64,
        lang: Seq<char>,
    ) -> ScanView {
        let record = ContractView::registered(
            record_of(self.contracts, key),
            cid,
            code_hash,
            block_height,
            lang,
        );
        ScanView { contracts: upserted(self.contracts, key, record), ..self }
    }

    /// The state after the contract of `key` was purged. Its comments stay in the log.
    pub open spec fn without_contract(self, key: Seq<char>) -> ScanView {
        ScanView { contracts: removed(self.contracts, key), ..self }
    }

    /// The state after `vote` was cast on the contract of `key`.
    pub open spec fn with_contract_vote(self, key: Seq<char>, vote: VoteView) -> ScanView
        recommends
            has_key(self.contracts, key),
    {
        let record = record_of(self.contracts, key)->Some_0.with_vote(vote);
        ScanView { contracts: upserted(self.contracts, key, record), ..self }
    }

    /// The state after a comment was posted on the contract of `key`: it is the
    /// last of the log, with the next id, and the last of the contract's comments.
    pub open spec fn with_comment(
        self,
        key: Seq<char>,
        author_id: Seq<char>,
        timestamp: u64,
        content: Seq<char>,
    ) -> ScanView
        recommends
            has_key(self.contracts, key),
    {
        let id = self.comments.len() as u64;
        let record = record_of(self.contracts, key)->Some_0.with_comment(id);
        ScanView {
            contracts: upserted(self.contracts, key, record),
            comments: self.comments.push(CommentView::posted(id, author_id, timestamp, content)),
            ..self
        }
    }

    /// The state after `vote` was cast on the comment `id`.
    pub open spec fn with_comment_vote(self, id: u64, vote: VoteView) -> ScanView
        recommends
            id < self.comments.len(),
    {
        ScanView {
            comments: self.comments.update(id as int, self.comments[id as int].with_vote(vote)),
            ..self
        }
    }

    /// The comments on the contract of `key`, in the order of their posting.
    pub open spec fn comments_on(self, key: Seq<char>) -> Seq<CommentView>
        recommends
            has_key(self.contracts, key),
    {
        resolved(self.comments, record_of(self.contracts, key)->Some_0.comments)
    }
}

/// Putting a record under a key leaves every listed comment in the log, where
/// the comments that the record lists are there.
proof fn upserted_ids_resolve(
    contracts: Seq<EntryView>,
    key: Seq<char>,
    record: ContractView,
    comments: nat,
)
    requires
        ids_resolve(contracts, comments),
        forall|k: int| 0 <= k < record.comments.len() ==> #[trigger] record.comments[k] < comments,
    ensures
        ids_resolve(upserted(contracts, key, record), comments),
{
    let after = upserted(contracts, key, record);
    assert forall|i: int, k: int| 0 <= i < after.len() && 0 <= k < after[i].1.comments.len() implies
        #[trigger] after[i].1.comments[k] < comments by {
        if after[i] != (key, record) {
            assert(after[i] == contracts[i]);
            assert(contracts[i].1.comments[k] < comments);
        }
    }
}

/// Taking a contract out leaves every listed comment in the log.
proof fn removed_ids_resolve(contracts: Seq<EntryView>, key: Seq<char>, comments: nat)
    requires
        ids_resolve(contracts, comments),
    ensures
        ids_resolve(removed(contracts, key), comments),
{
    let after = removed(contracts, key);
    assert forall|i: int, k: int| 0 <= i < after.len() && 0 <= k < after[i].1.comments.len() implies
        #[trigger] after[i].1.comments[k] < comments by {
        if has_key(contracts, key) {
            let from = if i == index_of(contracts, key) {
                contracts.len() - 1
            } else {
                i
            };
            assert(after[i] == contracts[from]);
            assert(contracts[from].1.comments[k] < comments);
        }
    }
}

/// The comments that the contract of `key` lists are in the log.
proof fn record_ids_resolve(contracts: Seq<EntryView>, key: Seq<char>, comments: nat)
    requires
        ids_resolve(contracts, comments),
        has_key(contracts, key),
    ensures
        forall|k: int|
            0 <= k < record_of(contracts, key)->Some_0.comments.len() ==> #[trigger] record_of(
                contracts,
                key,
            )->Some_0.comments[k] < comments,
{
    let at = index_of(contracts, key);
    assert forall|k: int| 0 <= k < contracts[at].1.comments.len() implies
        #[trigger] contracts[at].1.comments[k] < comments by {}
}

/// A contract that is registered again keeps its votes and its comments.
pub proof fn registration_keeps_votes_and_comments(
    state: ScanView,
    key: Seq<char>,
    cid: Seq<char>,
    code_hash: Seq<char>,
    block_height: u64,
    lang: Seq<char>,
)
    requires
        state.valid(),
        has_key(state.contracts, key),
    ensures
        ({
            let before = record_of(state.contracts, key)->Some_0;
            let after = record_of(
                state.with_contract(key, cid, code_hash, block_height, lang).contracts,
                key,
            );
            &&& after is Some
            &&& after->Some_0.votes == before.votes
            &&& after->Some_0.comments == before.comments
            &&& after->Some_0.cid == cid
            &&& after->Some_0.code_hash == code_hash
            &&& after->Some_0.block_height == block_height
            &&& after->Some_0.lang == lang
        }),
        state.with_contract(key, cid, code_hash, block_height, lang).comments == state.comments,
{
    let record = ContractView::registered(
        record_of(state.contracts, key),
        cid,
        code_hash,
        block_height,
        lang,
    );
    upserted_sets_one_record(state.contracts, key, record, key);
}

/// An account that votes again on a contract has one vote on it, the second
/// one: the state is the one that the second vote alone would have left.
pub proof fn second_contract_vote_replaces_first(
    state: ScanView,
    key: Seq<char>,
    first: VoteView,
    second: VoteView,
)
    requires
        state.valid(),
        has_key(state.contracts, key),
        first.author_id == second.author_id,
    ensures
        state.with_contract_vote(key, first).with_contract_vote(key, second)
            == state.with_contract_vote(key, second),
        votes_of(
            record_of(
                state.with_contract_vote(key, first).with_contract_vote(key, second).contracts,
                key,
            )->Some_0.votes,
            second.author_id,
        ) == seq![second],
{
    let record = record_of(state.contracts, key)->Some_0;
    let at = index_of(state.contracts, key);
    assert(state.contracts[at].1 == record);
    assert(distinct_voters(state.contracts[at].1.votes));
    second_vote_replaces_first(record.votes, first, second);
    let once = state.with_contract_vote(key, first);
    upserted_sets_one_record(state.contracts, key, record.with_vote(first), key);
    key_stands_once(once.contracts, key, at);
    let twice = once.with_contract_vote(key, second);
    let direct = state.with_contract_vote(key, second);
    assert(twice.contracts =~= direct.contracts);
    upserted_sets_one_record(state.contracts, key, record.with_vote(second), key);
}

/// An account that votes again on a comment has one vote on it, the second
/// one: the state is the one that the second vote alone would have left.
pub proof fn second_comment_vote_replaces_first(
    state: ScanView,
    id: u64,
    first: VoteView,
    second: VoteView,
)
    requires
        state.valid(),
        id < state.comments.len(),
        first.author_id == second.author_id,
    ensures
        state.with_comment_vote(id, first).with_comment_vote(id, second)
            == state.with_comment_vote(id, second),
        votes_of(
            state.with_comment_vote(id, first).with_comment_vote(id, second).comments[id as int].votes,
            second.author_id,
        ) == seq![second],
{
    let comment = state.comments[id as int];
    assert(distinct_voters(comment.votes));
    second_vote_replaces_first(comment.votes, first, second);
    let twice = state.with_comment_vote(id, first).with_comment_vote(id, second);
    let direct = state.with_comment_vote(id, second);
    assert(twice.comments =~= direct.comments);
}

/// Whether each id that a contract of `contracts` lists is below `comments`.
fn listed_ids_resolve(contracts: &Vec<(String, VerifiedContract)>, comments: usize) -> (r: bool)
    ensures
        r == ids_resolve(entry_views(contracts@), comments as nat),
{
    let ghost views = entry_views(contracts@);
    let mut at: usize = 0;
    while at < contracts.len()
        invariant
            at <= contracts.len(),
            views == entry_views(contracts@),
            forall|i: int, k: int|
                0 <= i < at && 0 <= k < views[i].1.comments.len()
                    ==> #[trigger] views[i].1.comments[k] < comments,
        decreases contracts.len() - at,
    {
        let listed = &contracts[at].1.comments;
        assert(listed@ == views[at as int].1.comments);
        let mut k: usize = 0;
        while k < listed.len()
            invariant
                k <= listed.len(),
                at < contracts.len(),
                views == entry_views(contracts@),
                listed@ == views[at as int].1.comments,
                forall|j: int| 0 <= j < k ==> #[trigger] listed[j] < comments,
            decreases listed.len() - k,
        {
            if listed[k] >= comments as u64 {
                assert(!(views[at as int].1.comments[k as int] < comments));
                return false;
            }
            k += 1;
        }
        at += 1;
    }
    true
}

/// The whole state: the owner, who alone registers and purges contracts, the
/// contracts, and the log of the comments on them.
#[derive(Debug)]
pub struct SourceScan {
    owner_id: String,
    contracts: Registry,
    comments: CommentLog,
}

impl View for SourceScan {
    type V = ScanView;

    closed spec fn view(&self) -> ScanView {
        ScanView {
            owner_id: self.owner_id@,
            contracts: self.contracts@,
            comments: self.comments@,
        }
    }
}

impl SourceScan {
    /// The state is one that the operations leave: see [`ScanView::valid`].
    pub open spec fn wf(&self) -> bool {
        self@.valid()
    }

    /// Initializes the state, for the account that calls: it becomes the owner
    /// of a state without contracts and comments. Where a state exists already,
    /// none is made.
    pub fn new(state_exists: bool, owner_id: String) -> (r: Result<SourceScan, Error>)
        ensures
            r is Err <==> state_exists,
            r matches Err(e) ==> e == Error::AlreadyInitialized,
            r matches Ok(state) ==> state.wf() && state@ == ScanView::initial(owner_id@),
    {
        if state_exists {
            return Err(Error::AlreadyInitialized);
        }
        Ok(SourceScan { owner_id, contracts: Registry::new(), comments: CommentLog::new() })
    }

    /// The state that an operation works on: the one that is stored. Where
    /// none is stored, nothing was initialized.
    pub fn loaded(stored: Option<SourceScan>) -> (r: Result<SourceScan, Error>)
        ensures
            match stored {
                Some(state) => r == Ok::<SourceScan, Error>(state),
                None => r == Err::<SourceScan, Error>(Error::Uninitialized),
            },
    {
        match stored {
            Some(state) => Ok(state),
            None => Err(Error::Uninitialized),
        }
    }

    /// The state with the owner `owner_id`, the contracts `contracts` and the
    /// comments `comments`, as they stand, where they make a state that the
    /// operations could have left: see [`ScanView::valid`].
    pub fn restore(
        owner_id: String,
        contracts: Vec<(String, VerifiedContract)>,
        comments: Vec<Comment>,
    ) -> (r: Option<SourceScan>)
        ensures
            r is Some <==> (ScanView {
                owner_id: owner_id@,
                contracts: entry_views(contracts@),
                comments: comment_views(comments@),
            }).valid(),
            r matches Some(state) ==> state.wf() && state@ == (ScanView {
                owner_id: owner_id@,
                contracts: entry_views(contracts@),
                comments: comment_views(comments@),
            }),
    {
        let known = comments.len();
        assert(comment_views(comments@).len() == known);
        if !listed_ids_resolve(&contracts, known) {
            return None;
        }
        let contracts = match Registry::from_entries(contracts) {
            Some(registry) => registry,
            None => {
                return None;
            },
        };
        let comments = match CommentLog::from_comments(comments) {
            Some(log) => log,
            None => {
                return None;
            },
        };
        Some(SourceScan { owner_id, contracts, comments })
    }

    /// The accounts with their contracts, in their order.
    pub fn contracts(&self) -> (r: &[(String, VerifiedContract)])
        ensures
            entry_views(r@) == self@.contracts,
    {
        self.contracts.as_slice()
    }

    /// All comments, in the order of their posting.
    pub fn comments(&self) -> (r: &[Comment])
        ensures
            comment_views(r@) == self@.comments,
    {
        self.comments.as_slice()
    }

    /// Hands the state over to `owner_id`. Only the owner may do so.
    pub fn set_owner(&mut self, caller: String, owner_id: String) -> (r: Result<(), Error>)
        requires
            old(self).wf(),
        ensures
            final(self).wf(),
            r is Err <==> caller@ != old(self)@.owner_id,
            r matches Err(e) ==> e == Error::Unauthorized && final(self)@ == old(self)@,
            r is Ok ==> final(self)@ == old(self)@.with_owner(owner_id@),
    {
        if caller != self.owner_id {
            return Err(Error::Unauthorized);
        }
        self.owner_id = owner_id;
        Ok(())
    }

    /// The owner.
    pub fn get_owner(&self) -> (r: String)
        ensures
            r@ == self@.owner_id,
    {
        self.owner_id.clone()
    }

    /// Registers the contract of `account_id`, or registers it again: then the
    /// votes and the comments on it stay, and the rest is replaced. Only the
    /// owner may do so. The result says whether the contract was added or updated.
    pub fn set_contract(
        &mut self,
        caller: String,
        account_id: String,
        cid: String,
        code_hash: String,
        block_height: u64,
        lang: String,
    ) -> (r: Result<Registered, Error>)
        requires
            old(self).wf(),
        ensures
            final(self).wf(),
            r is Err <==> caller@ != old(self)@.owner_id,
            r matches Err(e) ==> e == Error::Unauthorized && final(self)@ == old(self)@,
            r matches Ok(done) ==> {
                &&& final(self)@ == old(self)@.with_contract(
                    account_id@,
                    cid@,
                    code_hash@,
                    block_height,
                    lang@,
                )
                &&& done == if has_key(old(self)@.contracts, account_id@) {
                    Registered::Updated
                } else {
                    Registered::Added
                }
            },
    {
        if caller != self.owner_id {
            return Err(Error::Unauthorized);
        }
        let existing = self.contracts.get(&account_id);
        let record = VerifiedContract::registered(existing, cid, code_hash, block_height, lang);
        proof {
            if has_key(self@.contracts, account_id@) {
                record_ids_resolve(self@.contracts, account_id@, self@.comments.len());
            }
            upserted_ids_resolve(self@.contracts, account_id@, record@, self@.comments.len());
        }
        let was_there = self.contracts.insert(account_id, record);
        if was_there {
            Ok(Registered::Updated)
        } else {
            Ok(Registered::Added)
        }
    }

    /// Purges the contract of `account_id`, if one is registered. Only the
    /// owner may do so. The comments on the contract stay in the log.
    pub fn purge_contract(&mut self, caller: String, account_id: String) -> (r: Result<(), Error>)
        requires
            old(self).wf(),
        ensures
            final(self).wf(),
            r is Err <==> caller@ != old(self)@.owner_id,
            r matches Err(e) ==> e == Error::Unauthorized && final(self)@ == old(self)@,
            r is Ok ==> final(self)@ == old(self)@.without_contract(account_id@),
    {
        if caller != self.owner_id {
            return Err(Error::Unauthorized);
        }
        proof {
            removed_ids_resolve(self@.contracts, account_id@, self@.comments.len());
        }
        let _ = self.contracts.remove(&account_id);
        Ok(())
    }

    /// The record of the contract of `account_id`, if one is registered.
    pub fn get_contract(&self, account_id: String) -> (r: Option<VerifiedContract>)
        requires
            self.wf(),
        ensures
            record_of(self@.contracts, account_id@) == match r {
                Some(record) => Some(record@),
                None => None,
            },
            r matches Some(record) ==> record.wf(),
    {
        match self.contracts.get(&account_id) {
            Some(record) => Some(record.clone()),
            None => None,
        }
    }

    /// A page of the contracts whose account matches `key`, and the number of
    /// pages that those contracts fill. A `limit` of zero is refused.
    pub fn search(&self, key: String, from_index: usize, limit: usize) -> (r: Result<
        (Vec<(String, VerifiedContract)>, u64),
        Error,
    >)
        ensures
            r is Err <==> limit == 0,
            r matches Err(e) ==> e == Error::InvalidArgument,
            r matches Ok(found) ==> {
                &&& entry_views(found.0@) == page(
                    matching(self@.contracts, key@),
                    from_index as nat,
                    limit as nat,
                )
                &&& found.1 == pages(matching(self@.contracts, key@).len(), limit as nat)
            },
    {
        if limit == 0 {
            return Err(Error::InvalidArgument);
        }
        let result = self.contracts.search(key.as_str());
        assert(entry_views(result@).len() == result.len());
        let count = page_count(result.len() as u64, limit as u64)?;
        let filtered = page_of_entries(&result, from_index, limit);
        Ok((filtered, count))
    }

    /// A page of the contracts, and the number of pages that all the contracts
    /// fill. A `limit` of zero is refused.
    pub fn get_contracts(&self, from_index: usize, limit: usize) -> (r: Result<
        (Vec<(String, VerifiedContract)>, u64),
        Error,
    >)
        ensures
            r is Err <==> limit == 0,
            r matches Err(e) ==> e == Error::InvalidArgument,
            r matches Ok(found) ==> {
                &&& entry_views(found.0@) == page(self@.contracts, from_index as nat, limit as nat)
                &&& found.1 == pages(self@.contracts.len(), limit as nat)
            },
    {
        if limit == 0 {
            return Err(Error::InvalidArgument);
        }
        let filtered = self.contracts.page(from_index, limit);
        let count = page_count(self.contracts.len() as u64, limit as u64)?;
        Ok((filtered, count))
    }

    /// Casts the vote of `voter_id` on the contract of `account_id`, in place
    /// of the vote that the account had on it. There has to be such a contract.
    pub fn vote_contract(
        &mut self,
        account_id: String,
        voter_id: String,
        timestamp: u64,
        is_upvote: bool,
    ) -> (r: Result<(), Error>)
        requires
            old(self).wf(),
        ensures
            final(self).wf(),
            r is Err <==> !has_key(old(self)@.contracts, account_id@),
            r matches Err(e) ==> e == Error::NotFound && final(self)@ == old(self)@,
            r is Ok ==> final(self)@ == old(self)@.with_contract_vote(
                account_id@,
                VoteView { author_id: voter_id@, timestamp, vote_type: VoteType::of(is_upvote) },
            ),
    {
        let mut contract = match self.contracts.get(&account_id) {
            Some(record) => record.clone(),
            None => {
                return Err(Error::NotFound);
            },
        };
        contract.vote(voter_id, timestamp, is_upvote);
        proof {
            record_ids_resolve(self@.contracts, account_id@, self@.comments.len());
            upserted_ids_resolve(self@.contracts, account_id@, contract@, self@.comments.len());
        }
        self.contracts.insert(account_id, contract);
        Ok(())
    }

    /// Posts a comment of `author_id` on the contract of `account_id`, with
    /// `content` as it is. There has to be such a contract.
    pub fn add_comment(
        &mut self,
        account_id: String,
        author_id: String,
        timestamp: u64,
        content: String,
    ) -> (r: Result<(), Error>)
        requires
            old(self).wf(),
        ensures
            final(self).wf(),
            r is Err <==> !has_key(old(self)@.contracts, account_id@),
            r matches Err(e) ==> e == Error::NotFound && final(self)@ == old(self)@,
            r is Ok ==> final(self)@ == old(self)@.with_comment(
                account_id@,
                author_id@,
                timestamp,
                content@,
            ),
    {
        let mut contract = match self.contracts.get(&account_id) {
            Some(record) => record.clone(),
            None => {
                return Err(Error::NotFound);
            },
        };
        let id = self.comments.push(author_id, timestamp, content);
        contract.comments.push(id);
        proof {
            let before = old(self)@;
            let known = before.comments.len();
            record_ids_resolve(before.contracts, account_id@, known);
            assert forall|i: int, k: int|
                0 <= i < before.contracts.len() && 0 <= k < before.contracts[i].1.comments.len() implies
                #[trigger] before.contracts[i].1.comments[k] < known + 1 by {
                assert(before.contracts[i].1.comments[k] < known);
            }
            assert forall|k: int| 0 <= k < contract@.comments.len() implies
                #[trigger] contract@.comments[k] < known + 1 by {
                if k < contract@.comments.len() - 1 {
                    assert(contract@.comments[k] == record_of(
                        before.contracts,
                        account_id@,
                    )->Some_0.comments[k]);
                }
            }
            upserted_ids_resolve(before.contracts, account_id@, contract@, known + 1);
        }
        self.contracts.insert(account_id, contract);
        Ok(())
    }

    /// A page of the comments on the contract of `account_id`, those with the
    /// most upvotes first and, among comments with as many, in the order of
    /// their posting; and the number of pages that the comments on the
    /// contract fill. A `limit` of zero is refused, and there has to be such
    /// a contract.
    pub fn get_comments(&self, account_id: String, from_index: usize, limit: usize) -> (r: Result<
        (Vec<Comment>, u64),
        Error,
    >)
        requires
            self.wf(),
        ensures
            r is Err <==> limit == 0 || !has_key(self@.contracts, account_id@),
            r matches Err(e) ==> e == if limit == 0 {
                Error::InvalidArgument
            } else {
                Error::NotFound
            },
            r matches Ok(found) ==> {
                &&& comment_views(found.0@) == page(
                    ranked(self@.comments_on(account_id@)),
                    from_index as nat,
                    limit as nat,
                )
                &&& found.1 == pages(self@.comments_on(account_id@).len(), limit as nat)
            },
    {
        if limit == 0 {
            return Err(Error::InvalidArgument);
        }
        let contract = match self.contracts.get(&account_id) {
            Some(record) => record,
            None => {
                return Err(Error::NotFound);
            },
        };
        proof {
            record_ids_resolve(self@.contracts, account_id@, self@.comments.len());
            let listed = record_of(self@.contracts, account_id@)->Some_0.comments;
            assert(contract.comments@ == listed);
            assert forall|i: int| 0 <= i < contract.comments.len() implies contract.comments[i]
                < self@.comments.len() by {
                assert(listed[i] < self@.comments.len());
            }
        }
        let comments = self.comments.resolve(&contract.comments);
        let sorted = rank_comments(&comments);
        assert(comment_views(comments@).len() == comments.len());
        let count = page_count(comments.len() as u64, limit as u64)?;
        let filtered = page_of_comments(&sorted, from_index, limit);
        Ok((filtered, count))
    }

    /// Casts the vote of `voter_id` on the comment `comment_id`, in place of
    /// the vote that the account had on it. There has to be such a comment.
    pub fn vote_comment(
        &mut self,
        comment_id: u64,
        voter_id: String,
        timestamp: u64,
        is_upvote: bool,
    ) -> (r: Result<(), Error>)
        requires
            old(self).wf(),
        ensures
            final(self).wf(),
            r is Err <==> comment_id >= old(self)@.comments.len(),
            r matches Err(e) ==> e == Error::NotFound && final(self)@ == old(self)@,
            r is Ok ==> final(self)@ == old(self)@.with_comment_vote(
                comment_id,
                VoteView { author_id: voter_id@, timestamp, vote_type: VoteType::of(is_upvote) },
            ),
    {
        self.comments.vote(comment_id, voter_id, timestamp, is_upvote)
    }

    /// The comment `comment_id`, if there is one.
    pub fn get_comment(&self, comment_id: u64) -> (r: Option<Comment>)
        ensures
            match r {
                Some(comment) => comment_id < self@.comments.len() && comment@
                    == self@.comments[comment_id as int],
                None => comment_id >= self@.comments.len(),
            },
    {
        match self.comments.get(comment_id) {
            Some(comment) => Some(comment.clone()),
            None => None,
        }
    }
}

} // verus!
