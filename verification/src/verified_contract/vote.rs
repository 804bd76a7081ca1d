//! One account's vote, and the votes on one target: at most one of each account.

use std::cmp::Ordering;
use vstd::prelude::*;
use vstd::std_specs::cmp::{PartialEqSpecImpl, PartialOrdSpecImpl};

verus! {

/// What a vote says of its target.
#[derive(Clone, Copy, PartialEq, Eq, Structural, Ord, Debug, Hash)]
pub enum VoteType {
    Upvote,
    Downvote,
}

impl VoteType {
    /// The kind of a vote that is an upvote or is not.
    pub open spec fn of(is_upvote: bool) -> VoteType {
        if is_upvote {
            VoteType::Upvote
        } else {
            VoteType::Downvote
        }
    }

    /// The kind of a vote that is an upvote or is not.
    pub fn from_upvote(is_upvote: bool) -> (r: VoteType)
        ensures
            r == VoteType::of(is_upvote),
    {
        if is_upvote {
            VoteType::Upvote
        } else {
            VoteType::Downvote
        }
    }
}

/// An upvote comes before a downvote.
impl PartialOrd for VoteType {
    fn partial_cmp(&self, other: &Self) -> (r: Option<Ordering>) {
        Some(
            match (self, other) {
                (VoteType::Upvote, VoteType::Upvote) => Ordering::Equal,
                (VoteType::Downvote, VoteType::Downvote) => Ordering::Equal,
                (VoteType::Upvote, VoteType::Downvote) => Ordering::Less,
                (VoteType::Downvote, VoteType::Upvote) => Ordering::Greater,
            },
        )
    }
}

impl PartialOrdSpecImpl for VoteType {
    open spec fn obeys_partial_cmp_spec() -> bool {
        true
    }

    open spec fn partial_cmp_spec(&self, other: &Self) -> Option<Ordering> {
        Some(
            if self == other {
                Ordering::Equal
            } else if *self == VoteType::Upvote {
                Ordering::Less
            } else {
                Ordering::Greater
            },
        )
    }
}

/// The vote of one account: who cast it, when, and of which kind.
///
/// Two votes are equal when the same account cast them, whatever else they
/// hold; they are ordered by their time alone.
#[derive(Debug)]
pub struct Vote {
    pub author_id: String,
    pub timestamp: u64,
    pub vote_type: VoteType,
}

/// A vote as a value: the account as its characters.
pub struct VoteView {
    pub author_id: Seq<char>,
    pub timestamp: u64,
    pub vote_type: VoteType,
}

impl View for Vote {
    type V = VoteView;

    open spec fn view(&self) -> VoteView {
        VoteView {
            author_id: self.author_id@,
            timestamp: self.timestamp,
            vote_type: self.vote_type,
        }
    }
}

/// A copy of a vote is the vote.
impl Clone for Vote {
    fn clone(&self) -> (r: Self)
        ensures
            r == *self,
    {
        Vote {
            author_id: self.author_id.clone(),
            timestamp: self.timestamp,
            vote_type: self.vote_type,
        }
    }
}

/// Votes of one account are equal.
impl PartialEq for Vote {
    fn eq(&self, other: &Self) -> (r: bool) {
        self.author_id == other.author_id
    }
}

impl PartialEqSpecImpl for Vote {
    open spec fn obeys_eq_spec() -> bool {
        true
    }

    open spec fn eq_spec(&self, other: &Self) -> bool {
        self.author_id@ == other.author_id@
    }
}

impl Eq for Vote {}

/// The earlier vote comes first.
impl PartialOrd for Vote {
    fn partial_cmp(&self, other: &Self) -> (r: Option<Ordering>) {
        if self.timestamp < other.timestamp {
            Some(Ordering::Less)
        } else if self.timestamp == other.timestamp {
            Some(Ordering::Equal)
        } else {
            Some(Ordering::Greater)
        }
    }
}

impl PartialOrdSpecImpl for Vote {
    open spec fn obeys_partial_cmp_spec() -> bool {
        true
    }

    open spec fn partial_cmp_spec(&self, other: &Self) -> Option<Ordering> {
        Some(
            if self.timestamp < other.timestamp {
                Ordering::Less
            } else if self.timestamp == other.timestamp {
                Ordering::Equal
            } else {
                Ordering::Greater
            },
        )
    }
}

/// No account has two votes in `votes`.
pub open spec fn distinct_voters(votes: Seq<VoteView>) -> bool {
    forall|i: int, j: int|
        0 <= i < j < votes.len() ==> (#[trigger] votes[i]).author_id != (#[trigger] votes[j]).author_id
}

/// `votes` without the vote of the account `voter`.
pub open spec fn without_voter(votes: Seq<VoteView>, voter: Seq<char>) -> Seq<VoteView> {
    votes.filter(|v: VoteView| v.author_id != voter)
}

/// The votes that the account `voter` has in `votes`.
pub open spec fn votes_of(votes: Seq<VoteView>, voter: Seq<char>) -> Seq<VoteView> {
    votes.filter(|v: VoteView| v.author_id == voter)
}

/// `votes` after `vote` was cast: the vote that its account had before is gone,
/// and `vote` is the last one.
pub open spec fn cast(votes: Seq<VoteView>, vote: VoteView) -> Seq<VoteView> {
    without_voter(votes, vote.author_id).push(vote)
}

/// The upvotes among `votes`.
pub open spec fn upvotes(votes: Seq<VoteView>) -> Seq<VoteView> {
    votes.filter(|v: VoteView| v.vote_type == VoteType::Upvote)
}

/// Where no vote is of `voter`, nothing is taken out.
pub proof fn without_absent_voter(votes: Seq<VoteView>, voter: Seq<char>)
    requires
        forall|i: int| 0 <= i < votes.len() ==> (#[trigger] votes[i]).author_id != voter,
    ensures
        without_voter(votes, voter) == votes,
        votes_of(votes, voter) == Seq::<VoteView>::empty(),
    decreases votes.len(),
{
    reveal(Seq::filter);
    if votes.len() > 0 {
        let rest = votes.drop_last();
        assert forall|i: int| 0 <= i < rest.len() implies (#[trigger] rest[i]).author_id
            != voter by {
            assert(rest[i] == votes[i]);
        }
        without_absent_voter(rest, voter);
        assert(votes.last() == votes[votes.len() - 1]);
        assert(rest.push(votes.last()) =~= votes);
    }
}

/// Where the vote at `at` is the one of `voter`, it is the one taken out.
pub proof fn without_present_voter(votes: Seq<VoteView>, voter: Seq<char>, at: int)
    requires
        distinct_voters(votes),
        0 <= at < votes.len(),
        votes[at].author_id == voter,
    ensures
        without_voter(votes, voter) == votes.remove(at),
        votes_of(votes, voter) == seq![votes[at]],
    decreases votes.len(),
{
    reveal(Seq::filter);
    let rest = votes.drop_last();
    let last = votes.last();
    assert(last == votes[votes.len() - 1]);
    assert forall|i: int, j: int| 0 <= i < j < rest.len() implies (#[trigger] rest[i]).author_id != (
    #[trigger] rest[j]).author_id by {
        assert(rest[i] == votes[i] && rest[j] == votes[j]);
    }
    if at == votes.len() - 1 {
        assert forall|i: int| 0 <= i < rest.len() implies (#[trigger] rest[i]).author_id
            != voter by {
            assert(rest[i] == votes[i]);
        }
        without_absent_voter(rest, voter);
        assert(votes.remove(at) =~= rest);
        assert(Seq::<VoteView>::empty().push(last) =~= seq![votes[at]]);
    } else {
        assert(rest[at] == votes[at]);
        without_present_voter(rest, voter, at);
        assert(votes[at].author_id != last.author_id);
        assert(rest.remove(at).push(last) =~= votes.remove(at));
    }
}

/// What is left when one account's vote is taken out: votes of `votes`, none
/// of that account, and of each other account one at most.
pub proof fn without_voter_keeps_others(votes: Seq<VoteView>, voter: Seq<char>)
    requires
        distinct_voters(votes),
    ensures
        distinct_voters(without_voter(votes, voter)),
        forall|i: int|
            0 <= i < without_voter(votes, voter).len() ==> {
                &&& (#[trigger] without_voter(votes, voter)[i]).author_id != voter
                &&& votes.contains(without_voter(votes, voter)[i])
            },
    decreases votes.len(),
{
    reveal(Seq::filter);
    if votes.len() > 0 {
        let rest = votes.drop_last();
        let last = votes.last();
        let kept_rest = without_voter(rest, voter);
        let kept = without_voter(votes, voter);
        assert(last == votes[votes.len() - 1]);
        assert forall|a: int, b: int| 0 <= a < b < rest.len() implies (#[trigger] rest[a]).author_id != (
        #[trigger] rest[b]).author_id by {
            assert(rest[a] == votes[a] && rest[b] == votes[b]);
        }
        without_voter_keeps_others(rest, voter);
        assert forall|i: int| 0 <= i < kept.len() implies {
            &&& (#[trigger] kept[i]).author_id != voter
            &&& votes.contains(kept[i])
        } by {
            if i < kept_rest.len() {
                assert(kept[i] == kept_rest[i]);
                assert(rest.contains(kept_rest[i]));
                let k = choose|k: int| 0 <= k < rest.len() && rest[k] == kept_rest[i];
                assert(votes[k] == kept[i]);
            } else {
                assert(kept[i] == last);
            }
        }
        assert forall|i: int, j: int| 0 <= i < j < kept.len() implies (#[trigger] kept[i]).author_id != (
        #[trigger] kept[j]).author_id by {
            assert(kept[i] == kept_rest[i]);
            if j < kept_rest.len() {
                assert(kept[j] == kept_rest[j]);
            } else {
                assert(kept[j] == last);
                assert(rest.contains(kept_rest[i]));
                let k = choose|k: int| 0 <= k < rest.len() && rest[k] == kept_rest[i];
                assert(votes[k] == kept[i]);
            }
        }
    }
}

/// Casting a vote leaves each account with one vote at most, and the account
/// of the vote with that vote and no other.
pub proof fn cast_keeps_one_vote_each(votes: Seq<VoteView>, vote: VoteView)
    requires
        distinct_voters(votes),
    ensures
        distinct_voters(cast(votes, vote)),
        votes_of(cast(votes, vote), vote.author_id) == seq![vote],
        without_voter(cast(votes, vote), vote.author_id) == without_voter(votes, vote.author_id),
{
    let voter = vote.author_id;
    let kept = without_voter(votes, voter);
    let after = cast(votes, vote);
    without_voter_keeps_others(votes, voter);
    assert forall|i: int, j: int| 0 <= i < j < after.len() implies (#[trigger] after[i]).author_id != (
    #[trigger] after[j]).author_id by {
        assert(after[i] == kept[i]);
        if j < kept.len() {
            assert(after[j] == kept[j]);
        }
    }
    assert(after[kept.len() as int] == vote);
    without_present_voter(after, voter, kept.len() as int);
    assert(after.remove(kept.len() as int) =~= kept);
}

/// A second vote of the account that cast the first one takes the first one's
/// place, be it of the same kind or of the other: the account has one vote,
/// the second one, there are as many votes as after the first one, and they
/// are those that the second vote alone would have left.
pub proof fn second_vote_replaces_first(votes: Seq<VoteView>, first: VoteView, second: VoteView)
    requires
        distinct_voters(votes),
        first.author_id == second.author_id,
    ensures
        cast(cast(votes, first), second) == cast(votes, second),
        votes_of(cast(cast(votes, first), second), second.author_id) == seq![second],
        cast(cast(votes, first), second).len() == cast(votes, first).len(),
{
    cast_keeps_one_vote_each(votes, first);
    cast_keeps_one_vote_each(votes, second);
    cast_keeps_one_vote_each(cast(votes, first), second);
}

/// Votes as values.
pub open spec fn vote_views(votes: Seq<Vote>) -> Seq<VoteView> {
    votes.map_values(|v: Vote| v@)
}

/// Whether no account has two votes in `votes`.
fn has_distinct_voters(votes: &Vec<Vote>) -> (r: bool)
    ensures
        r == distinct_voters(vote_views(votes@)),
{
    let ghost views = vote_views(votes@);
    let mut later: usize = 0;
    while later < votes.len()
        invariant
            later <= votes.len(),
            views == vote_views(votes@),
            forall|i: int, j: int|
                0 <= i < j < later ==> (#[trigger] views[i]).author_id != (
                #[trigger] views[j]).author_id,
        decreases votes.len() - later,
    {
        let mut earlier: usize = 0;
        while earlier < later
            invariant
                earlier <= later < votes.len(),
                views == vote_views(votes@),
                forall|i: int|
                    0 <= i < earlier ==> (#[trigger] views[i]).author_id
                        != views[later as int].author_id,
            decreases later - earlier,
        {
            if votes[earlier].author_id == votes[later].author_id {
                assert(views[earlier as int].author_id == views[later as int].author_id);
                return false;
            }
            earlier += 1;
        }
        later += 1;
    }
    true
}

/// The votes on one target, in the order in which they were last cast.
/// Each account has one vote at most.
#[derive(Debug)]
pub struct VoteSet {
    votes: Vec<Vote>,
}

impl View for VoteSet {
    type V = Seq<VoteView>;

    closed spec fn view(&self) -> Seq<VoteView> {
        vote_views(self.votes@)
    }
}

/// A copy holds the same votes in the same order.
impl Clone for VoteSet {
    fn clone(&self) -> (r: Self)
        ensures
            r@ == self@,
    {
        let r = VoteSet { votes: self.votes.clone() };
        assert(r@ =~= self@);
        r
    }
}

/// By default there are no votes.
impl Default for VoteSet {
    fn default() -> (r: Self)
        ensures
            r@ == Seq::<VoteView>::empty(),
            r.wf(),
    {
        VoteSet::new()
    }
}

impl VoteSet {
    /// No account has two votes here.
    pub open spec fn wf(&self) -> bool {
        distinct_voters(self@)
    }

    /// No votes.
    pub fn new() -> (r: VoteSet)
        ensures
            r@ == Seq::<VoteView>::empty(),
            r.wf(),
    {
        let r = VoteSet { votes: Vec::new() };
        assert(r@ =~= Seq::<VoteView>::empty());
        r
    }

    /// The votes `votes` as they stand, where no account has two of them.
    pub fn from_votes(votes: Vec<Vote>) -> (r: Option<VoteSet>)
        ensures
            r is Some <==> distinct_voters(vote_views(votes@)),
            r matches Some(set) ==> set.wf() && set@ == vote_views(votes@),
    {
        if has_distinct_voters(&votes) {
            Some(VoteSet { votes })
        } else {
            None
        }
    }

    /// Whether no account has two votes here. It is so of every set that
    /// the operations of this library have made.
    pub fn is_valid(&self) -> (r: bool)
        ensures
            r == self.wf(),
    {
        has_distinct_voters(&self.votes)
    }

    /// How many votes there are.
    pub fn len(&self) -> (r: usize)
        ensures
            r == self@.len(),
    {
        self.votes.len()
    }

    /// Whether there is no vote.
    pub fn is_empty(&self) -> (r: bool)
        ensures
            r == (self@.len() == 0),
    {
        self.votes.len() == 0
    }

    /// The votes, in the order in which they were last cast.
    pub fn as_slice(&self) -> (r: &[Vote])
        ensures
            vote_views(r@) == self@,
    {
        self.votes.as_slice()
    }

    /// Where the vote of `author_id` stands, if the account has one.
    fn position(&self, author_id: &String) -> (r: Option<usize>)
        ensures
            match r {
                Some(at) => at < self@.len() && self@[at as int].author_id == author_id@,
                None => forall|i: int|
                    0 <= i < self@.len() ==> (#[trigger] self@[i]).author_id != author_id@,
            },
    {
        let mut at: usize = 0;
        while at < self.votes.len()
            invariant
                at <= self.votes.len(),
                forall|i: int| 0 <= i < at ==> (#[trigger] self@[i]).author_id != author_id@,
            decreases self.votes.len() - at,
        {
            if self.votes[at].author_id == *author_id {
                return Some(at);
            }
            at += 1;
        }
        None
    }

    /// The vote of `author_id`, if the account has one.
    pub fn get(&self, author_id: &String) -> (r: Option<&Vote>)
        requires
            self.wf(),
        ensures
            votes_of(self@, author_id@) == match r {
                Some(vote) => seq![vote@],
                None => Seq::<VoteView>::empty(),
            },
    {
        match self.position(author_id) {
            Some(at) => {
                proof {
                    without_present_voter(self@, author_id@, at as int);
                }
                Some(&self.votes[at])
            },
            None => {
                proof {
                    without_absent_voter(self@, author_id@);
                }
                None
            },
        }
    }

    /// How many of the votes are upvotes.
    pub fn upvote_count(&self) -> (r: usize)
        ensures
            r == upvotes(self@).len(),
    {
        let mut count: usize = 0;
        let mut at: usize = 0;
        assert(self@.take(0) =~= Seq::<VoteView>::empty());
        proof {
            reveal(Seq::filter);
        }
        while at < self.votes.len()
            invariant
                at <= self.votes.len(),
                count <= at,
                count == upvotes(self@.take(at as int)).len(),
            decreases self.votes.len() - at,
        {
            proof {
                let seen = self@.take(at as int);
                seen.lemma_filter_push(self@[at as int], |v: VoteView| v.vote_type == VoteType::Upvote);
                assert(seen.push(self@[at as int]) =~= self@.take(at + 1));
            }
            if self.votes[at].vote_type == VoteType::Upvote {
                count += 1;
            }
            at += 1;
        }
        assert(self@.take(at as int) =~= self@);
        count
    }

    /// Takes out the vote of `author_id`, if the account has one, and returns it.
    pub fn take(&mut self, author_id: &String) -> (r: Option<Vote>)
        requires
            old(self).wf(),
        ensures
            final(self).wf(),
            final(self)@ == without_voter(old(self)@, author_id@),
            votes_of(old(self)@, author_id@) == match r {
                Some(vote) => seq![vote@],
                None => Seq::<VoteView>::empty(),
            },
    {
        proof {
            without_voter_keeps_others(self@, author_id@);
        }
        match self.position(author_id) {
            Some(at) => {
                proof {
                    without_present_voter(self@, author_id@, at as int);
                }
                let vote = self.votes.remove(at);
                assert(self@ =~= old(self)@.remove(at as int));
                Some(vote)
            },
            None => {
                proof {
                    without_absent_voter(self@, author_id@);
                }
                None
            },
        }
    }

    /// Casts the vote of `author_id`: the vote that the account had here before
    /// is gone, whatever its kind was, and the new one is the last of the votes.
    pub fn update_or_insert_vote(&mut self, author_id: String, timestamp: u64, is_upvote: bool)
        requires
            old(self).wf(),
        ensures
            final(self).wf(),
            final(self)@ == cast(
                old(self)@,
                VoteView { author_id: author_id@, timestamp, vote_type: VoteType::of(is_upvote) },
            ),
    {
        let new_vote = Vote { author_id, timestamp, vote_type: VoteType::from_upvote(is_upvote) };
        proof {
            cast_keeps_one_vote_each(self@, new_vote@);
        }
        let _ = self.take(&new_vote.author_id);
        let ghost kept = self@;
        self.votes.push(new_vote);
        assert(self@ =~= kept.push(new_vote@));
    }
}

} // verus!
