use source_scan::comment_log::{page_of_comments, rank_comments, CommentLog};
use source_scan::error::Error;
use source_scan::pagination::{page_count, page_range};
use source_scan::ranking::ranking;
use source_scan::registry::Registry;
use source_scan::search::{chars_of, matches_query, normalized_contains};
use source_scan::verified_contract::comment::Comment;
use source_scan::verified_contract::vote::{Vote, VoteSet, VoteType};
use source_scan::verified_contract::VerifiedContract;
use source_scan::SourceScan;
use std::cmp::Ordering;

fn vote(author_id: &str, timestamp: u64, vote_type: VoteType) -> Vote {
    Vote { author_id: author_id.to_string(), timestamp, vote_type }
}

fn record(cid: &str) -> VerifiedContract {
    VerifiedContract::registered(None, cid.to_string(), "hash".to_string(), 1, "rust".to_string())
}

#[test]
fn page_count_rounds_up() {
    assert_eq!(page_count(0, 1), Ok(0));
    assert_eq!(page_count(0, 7), Ok(0));
    assert_eq!(page_count(1, 7), Ok(1));
    assert_eq!(page_count(7, 7), Ok(1));
    assert_eq!(page_count(8, 7), Ok(2));
    assert_eq!(page_count(3, 2), Ok(2));
    assert_eq!(page_count(10, 3), Ok(4));
    assert_eq!(page_count(u64::MAX, 1), Ok(u64::MAX));
    assert_eq!(page_count(u64::MAX, 2), Ok(1 << 63));
    assert_eq!(page_count(u64::MAX, u64::MAX), Ok(1));
    assert_eq!(page_count(u64::MAX - 1, u64::MAX), Ok(1));
}

#[test]
fn page_count_is_the_least_that_holds_all() {
    for total in 0..40u64 {
        for limit in 1..9u64 {
            let count = page_count(total, limit).unwrap();
            assert!(count * limit >= total);
            assert!(count == 0 || (count - 1) * limit < total);
        }
    }
}

#[test]
fn page_count_refuses_zero() {
    assert_eq!(page_count(0, 0), Err(Error::InvalidArgument));
    assert_eq!(page_count(5, 0), Err(Error::InvalidArgument));
}

#[test]
fn page_range_stays_inside() {
    assert_eq!(page_range(5, 0, 2), (0, 2));
    assert_eq!(page_range(5, 4, 2), (4, 5));
    assert_eq!(page_range(5, 5, 2), (5, 5));
    assert_eq!(page_range(5, 9, 2), (5, 5));
    assert_eq!(page_range(5, 1, 0), (1, 1));
    assert_eq!(page_range(0, 0, 3), (0, 0));
    assert_eq!(page_range(5, 2, usize::MAX), (2, 5));
    assert_eq!(page_range(5, usize::MAX, usize::MAX), (5, 5));
}

#[test]
fn chars_of_keeps_every_character() {
    assert_eq!(chars_of(""), Vec::<char>::new());
    assert_eq!(chars_of("a.b"), vec!['a', '.', 'b']);
    assert_eq!(chars_of("héé"), vec!['h', 'é', 'é']);
}

#[test]
fn a_key_loses_the_networks_at_its_end() {
    assert!(normalized_contains("alice.testnet", "alice"));
    assert!(normalized_contains("alice.near", "lic"));
    assert!(!normalized_contains("alice.testnet", "testnet"));
    assert!(!normalized_contains("alice.near", ".near"));
    assert!(!normalized_contains("alice.near", "e.n"));
    // However many there are.
    assert!(!normalized_contains("alice.near.testnet", "near"));
    assert!(!normalized_contains("alice.testnet.near.near", "."));
    assert!(normalized_contains("alice.testnet.near.near", "alice"));
    // Not elsewhere.
    assert!(normalized_contains("a.nearby", ".near"));
    assert!(normalized_contains("sub.near.alice", "near"));
    assert!(normalized_contains("x.testnets", "testnet"));
    // A key that is a network name only has nothing left.
    assert!(!normalized_contains(".near", "n"));
    assert!(normalized_contains(".near", ""));
    assert!(normalized_contains("", ""));
    assert!(!normalized_contains("", "a"));
    assert!(normalized_contains("near", "near"));
    assert!(normalized_contains("testnet", "testnet"));
}

#[test]
fn a_query_is_found_wherever_it_stands() {
    assert!(normalized_contains("abcab", "abcab"));
    assert!(normalized_contains("abcab", "cab"));
    assert!(normalized_contains("aab", "ab"));
    assert!(!normalized_contains("abcab", "abcabc"));
    assert!(!normalized_contains("abcab", "ba"));
    assert!(normalized_contains("ααβ", "αβ"));
}

#[test]
fn matching_is_blind_to_case() {
    assert!(matches_query("Alice.TestNet", "ALICE"));
    assert!(matches_query("ALICE.NEAR", "alice"));
    assert!(!matches_query("ALICE.NEAR", "near"));
    assert!(matches_query("alice", "LIC"));
    assert!(!matches_query("alice", "bob"));
    assert!(matches_query("ÄRGER.near", "ärger"));
}

#[test]
fn votes_are_equal_by_account_and_ordered_by_time() {
    let early = vote("alice", 1, VoteType::Upvote);
    let late = vote("alice", 2, VoteType::Downvote);
    let other = vote("bob", 1, VoteType::Upvote);
    assert!(early == late);
    assert!(early != other);
    assert_eq!(early.partial_cmp(&late), Some(Ordering::Less));
    assert_eq!(late.partial_cmp(&early), Some(Ordering::Greater));
    assert_eq!(early.partial_cmp(&other), Some(Ordering::Equal));
    assert!(early < late);
    let copy = late.clone();
    assert_eq!(copy.author_id, "alice");
    assert_eq!(copy.timestamp, 2);
    assert_eq!(copy.vote_type, VoteType::Downvote);
}

#[test]
fn an_upvote_comes_before_a_downvote() {
    assert_eq!(
        VoteType::Upvote.partial_cmp(&VoteType::Downvote),
        Some(Ordering::Less)
    );
    assert_eq!(
        VoteType::Downvote.partial_cmp(&VoteType::Upvote),
        Some(Ordering::Greater)
    );
    assert_eq!(
        VoteType::Upvote.partial_cmp(&VoteType::Upvote),
        Some(Ordering::Equal)
    );
    assert_eq!(
        VoteType::Downvote.partial_cmp(&VoteType::Downvote),
        Some(Ordering::Equal)
    );
    assert_eq!(VoteType::Upvote.cmp(&VoteType::Downvote), Ordering::Less);
    assert_eq!(VoteType::Downvote.cmp(&VoteType::Upvote), Ordering::Greater);
    assert_eq!(VoteType::from_upvote(true), VoteType::Upvote);
    assert_eq!(VoteType::from_upvote(false), VoteType::Downvote);
}

#[test]
fn voting_twice_alike_leaves_one_vote() {
    let mut votes = VoteSet::new();
    votes.update_or_insert_vote("alice".to_string(), 1, true);
    votes.update_or_insert_vote("alice".to_string(), 2, true);
    assert_eq!(votes.len(), 1);
    let kept = votes.get(&"alice".to_string()).unwrap();
    assert_eq!(kept.vote_type, VoteType::Upvote);
    assert_eq!(kept.timestamp, 2);
    assert_eq!(votes.upvote_count(), 1);
}

#[test]
fn a_downvote_replaces_the_upvote() {
    let mut votes = VoteSet::default();
    assert!(votes.is_empty());
    votes.update_or_insert_vote("alice".to_string(), 1, true);
    votes.update_or_insert_vote("alice".to_string(), 2, false);
    assert_eq!(votes.len(), 1);
    assert!(!votes.is_empty());
    let kept = votes.get(&"alice".to_string()).unwrap();
    assert_eq!(kept.vote_type, VoteType::Downvote);
    assert_eq!(votes.upvote_count(), 0);
    assert!(votes.get(&"bob".to_string()).is_none());
}

#[test]
fn each_account_has_its_own_vote() {
    let mut votes = VoteSet::new();
    votes.update_or_insert_vote("alice".to_string(), 1, true);
    votes.update_or_insert_vote("bob".to_string(), 2, false);
    votes.update_or_insert_vote("carol".to_string(), 3, true);
    votes.update_or_insert_vote("alice".to_string(), 4, false);
    assert_eq!(votes.len(), 3);
    assert_eq!(votes.upvote_count(), 1);
    let order: Vec<&str> = votes
        .as_slice()
        .iter()
        .map(|vote| vote.author_id.as_str())
        .collect();
    assert_eq!(order, vec!["bob", "carol", "alice"]);

    let taken = votes.take(&"carol".to_string()).unwrap();
    assert_eq!(taken.timestamp, 3);
    assert_eq!(taken.vote_type, VoteType::Upvote);
    assert!(votes.take(&"carol".to_string()).is_none());
    assert_eq!(votes.len(), 2);
    assert_eq!(votes.upvote_count(), 0);

    let copy = votes.clone();
    assert_eq!(copy.len(), 2);
    assert_eq!(copy.as_slice()[1].author_id, "alice");
    assert_eq!(copy.as_slice()[1].timestamp, 4);
}

#[test]
fn ranking_puts_the_most_upvotes_first() {
    assert_eq!(ranking(&vec![0, 2, 1]), vec![1, 2, 0]);
    assert_eq!(ranking(&vec![]), Vec::<usize>::new());
    assert_eq!(ranking(&vec![5]), vec![0]);
    assert_eq!(ranking(&vec![1, 2, 3, 4]), vec![3, 2, 1, 0]);
    assert_eq!(ranking(&vec![4, 3, 2, 1]), vec![0, 1, 2, 3]);
}

#[test]
fn ranking_keeps_the_order_of_posting_among_equals() {
    assert_eq!(ranking(&vec![0, 0, 0]), vec![0, 1, 2]);
    assert_eq!(ranking(&vec![1, 3, 1, 3, 0, 1]), vec![1, 3, 0, 2, 5, 4]);
    assert_eq!(ranking(&vec![usize::MAX, 0, usize::MAX]), vec![0, 2, 1]);
}

#[test]
fn rank_comments_moves_whole_comments() {
    let mut posted = Vec::new();
    for (id, content) in ["a", "b", "c"].iter().enumerate() {
        posted.push(Comment::new(id as u64, "alice".to_string(), id as u64 + 10, content.to_string()));
    }
    posted[2].vote("bob".to_string(), 1, true);
    posted[2].vote("carol".to_string(), 2, true);
    posted[1].vote("bob".to_string(), 3, true);
    posted[0].vote("bob".to_string(), 4, false);
    let shown = rank_comments(&posted);
    assert_eq!(shown.len(), 3);
    assert_eq!(shown[0].content, "c");
    assert_eq!(shown[0].id, 2);
    assert_eq!(shown[0].timestamp, 12);
    assert_eq!(shown[0].votes.len(), 2);
    assert_eq!(shown[1].content, "b");
    assert_eq!(shown[2].content, "a");
    assert_eq!(shown[2].votes.as_slice()[0].vote_type, VoteType::Downvote);

    let cut = page_of_comments(&shown, 1, 5);
    assert_eq!(cut.len(), 2);
    assert_eq!(cut[0].content, "b");
    assert_eq!(cut[1].content, "a");
    assert!(page_of_comments(&shown, 3, 5).is_empty());
    assert!(page_of_comments(&shown, 0, 0).is_empty());
}

#[test]
fn the_log_numbers_its_comments() {
    let mut log = CommentLog::new();
    assert_eq!(log.len(), 0);
    assert!(log.get(0).is_none());
    assert_eq!(log.push("alice".to_string(), 1, "first".to_string()), 0);
    assert_eq!(log.push("bob".to_string(), 2, "".to_string()), 1);
    assert_eq!(log.len(), 2);
    assert_eq!(log.get(1).unwrap().author_id, "bob");
    assert_eq!(log.get(1).unwrap().content, "");
    assert_eq!(log.get(1).unwrap().id, 1);
    assert!(log.get(2).is_none());
    assert_eq!(log.vote(2, "carol".to_string(), 3, true), Err(Error::NotFound));
    assert_eq!(log.vote(u64::MAX, "carol".to_string(), 3, true), Err(Error::NotFound));
    assert_eq!(log.vote(0, "carol".to_string(), 3, true), Ok(()));
    assert_eq!(log.get(0).unwrap().votes.upvote_count(), 1);
    assert_eq!(log.get(1).unwrap().votes.len(), 0);

    let some = log.resolve(&vec![1, 0, 1]);
    assert_eq!(some.len(), 3);
    assert_eq!(some[0].id, 1);
    assert_eq!(some[1].content, "first");
    assert_eq!(some[1].votes.len(), 1);
    assert_eq!(some[2].id, 1);
}

#[test]
fn the_registry_keeps_one_record_for_a_key() {
    let mut registry = Registry::new();
    assert_eq!(registry.len(), 0);
    assert!(!registry.insert("a".to_string(), record("1")));
    assert!(!registry.insert("b".to_string(), record("2")));
    assert!(registry.insert("a".to_string(), record("3")));
    assert_eq!(registry.len(), 2);
    assert_eq!(registry.get(&"a".to_string()).unwrap().cid, "3");
    assert_eq!(registry.get(&"b".to_string()).unwrap().cid, "2");
    assert!(registry.get(&"c".to_string()).is_none());
    let listed = registry.page(0, 5);
    assert_eq!(listed[0].0, "a");
    assert_eq!(listed[1].0, "b");

    let gone = registry.remove(&"a".to_string()).unwrap();
    assert_eq!(gone.cid, "3");
    assert!(registry.remove(&"a".to_string()).is_none());
    assert_eq!(registry.len(), 1);
    assert_eq!(registry.page(0, 5)[0].0, "b");
    assert_eq!(registry.search("B").len(), 1);
    assert_eq!(registry.search("a").len(), 0);
}

#[test]
fn a_record_takes_over_votes_and_comments() {
    let mut first = record("1");
    first.vote("alice".to_string(), 1, true);
    first.comments.push(4);
    let second = VerifiedContract::registered(
        Some(&first),
        "2".to_string(),
        "h2".to_string(),
        9,
        "go".to_string(),
    );
    assert_eq!(second.cid, "2");
    assert_eq!(second.code_hash, "h2");
    assert_eq!(second.block_height, 9);
    assert_eq!(second.lang, "go");
    assert_eq!(second.comments, vec![4]);
    assert_eq!(second.votes.len(), 1);
    assert_eq!(second.votes.as_slice()[0].author_id, "alice");
    let copy = second.clone();
    assert_eq!(copy.cid, "2");
    assert_eq!(copy.comments, vec![4]);
    assert_eq!(copy.votes.upvote_count(), 1);
}

#[test]
fn votes_are_taken_over_where_each_account_has_one() {
    let good = VoteSet::from_votes(vec![
        vote("alice", 1, VoteType::Upvote),
        vote("bob", 1, VoteType::Upvote),
    ])
    .unwrap();
    assert_eq!(good.len(), 2);
    assert!(good.is_valid());
    assert_eq!(good.as_slice()[0].author_id, "alice");
    assert_eq!(good.as_slice()[1].author_id, "bob");
    assert!(VoteSet::from_votes(Vec::new()).unwrap().is_empty());
    assert!(VoteSet::from_votes(vec![
        vote("alice", 1, VoteType::Upvote),
        vote("bob", 2, VoteType::Upvote),
        vote("alice", 3, VoteType::Downvote),
    ])
    .is_none());
}

#[test]
fn contracts_are_taken_over_where_each_account_has_one() {
    let good = Registry::from_entries(vec![
        ("a".to_string(), record("1")),
        ("b".to_string(), record("2")),
    ])
    .unwrap();
    assert_eq!(good.len(), 2);
    assert_eq!(good.as_slice()[1].0, "b");
    assert_eq!(good.as_slice()[1].1.cid, "2");
    assert!(Registry::from_entries(vec![
        ("a".to_string(), record("1")),
        ("b".to_string(), record("2")),
        ("a".to_string(), record("3")),
    ])
    .is_none());
}

#[test]
fn comments_are_taken_over_where_the_ids_are_the_places() {
    let comment = |id: u64| Comment::new(id, "alice".to_string(), 0, "text".to_string());
    let good = CommentLog::from_comments(vec![comment(0), comment(1)]).unwrap();
    assert_eq!(good.len(), 2);
    assert_eq!(good.as_slice()[1].id, 1);
    assert!(CommentLog::from_comments(vec![comment(0), comment(2)]).is_none());
    assert!(CommentLog::from_comments(vec![comment(1)]).is_none());
    assert_eq!(CommentLog::from_comments(Vec::new()).unwrap().len(), 0);
}

#[test]
fn a_state_is_restored_as_it_was_left() {
    let mut state = SourceScan::new(false, "owner".to_string()).unwrap();
    for key in ["a", "b"] {
        state
            .set_contract(
                "owner".to_string(),
                key.to_string(),
                "cid".to_string(),
                "hash".to_string(),
                3,
                "rust".to_string(),
            )
            .unwrap();
    }
    state
        .add_comment("b".to_string(), "carol".to_string(), 4, "hello".to_string())
        .unwrap();
    state.vote_comment(0, "dave".to_string(), 5, true).unwrap();
    state.vote_contract("a".to_string(), "dave".to_string(), 6, false).unwrap();

    let contracts: Vec<(String, VerifiedContract)> = state.contracts().to_vec();
    let comments: Vec<Comment> = state.comments().to_vec();
    assert_eq!(contracts.len(), 2);
    assert_eq!(comments.len(), 1);
    let again = SourceScan::restore(state.get_owner(), contracts, comments).unwrap();

    assert_eq!(again.get_owner(), "owner");
    let b = again.get_contract("b".to_string()).unwrap();
    assert_eq!(b.comments, vec![0]);
    let a = again.get_contract("a".to_string()).unwrap();
    assert_eq!(a.votes.as_slice()[0].vote_type, VoteType::Downvote);
    let (shown, pages) = again.get_comments("b".to_string(), 0, 1).unwrap();
    assert_eq!(pages, 1);
    assert_eq!(shown[0].content, "hello");
    assert_eq!(shown[0].votes.upvote_count(), 1);
}

#[test]
fn a_state_with_a_lost_comment_is_not_restored() {
    let mut listing = record("1");
    listing.comments.push(0);
    assert!(SourceScan::restore(
        "owner".to_string(),
        vec![("a".to_string(), listing.clone())],
        Vec::new()
    )
    .is_none());
    let comment = Comment::new(0, "alice".to_string(), 0, "text".to_string());
    assert!(SourceScan::restore(
        "owner".to_string(),
        vec![("a".to_string(), listing.clone())],
        vec![comment.clone()]
    )
    .is_some());
    assert!(SourceScan::restore(
        "owner".to_string(),
        vec![("a".to_string(), listing.clone()), ("a".to_string(), listing)],
        vec![comment]
    )
    .is_none());
    let misplaced = Comment::new(3, "alice".to_string(), 0, "text".to_string());
    assert!(SourceScan::restore("owner".to_string(), Vec::new(), vec![misplaced]).is_none());
    assert!(SourceScan::restore("owner".to_string(), Vec::new(), Vec::new()).is_some());
}
