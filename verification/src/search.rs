//! Matching a query against the keys of the registry: both are lower-cased, the
//! key loses the network names at its end, and the query has to occur in what is left.

use vstd::prelude::*;

verus! {

/// What `str::to_lowercase` returns for a string of the characters `s`.
pub uninterp spec fn lowercase_of(s: Seq<char>) -> Seq<char>;

/// The lower-case form of `s`, by `str::to_lowercase` of the standard library:
/// the result is the one that Unicode's rules give, and depends on `s` alone.
#[verifier::external_body]
fn lowercase(s: &str) -> (r: String)
    ensures
        r@ == lowercase_of(s@),
{
    s.to_lowercase()
}

/// The name of the test network as it ends a key: `.testnet`.
pub open spec fn testnet_suffix() -> Seq<char> {
    seq!['.', 't', 'e', 's', 't', 'n', 'e', 't']
}

/// The name of the main network as it ends a key: `.near`.
pub open spec fn near_suffix() -> Seq<char> {
    seq!['.', 'n', 'e', 'a', 'r']
}

/// `s` ends with `suffix`.
pub open spec fn ends_with(s: Seq<char>, suffix: Seq<char>) -> bool {
    suffix.len() <= s.len() && s.subrange(s.len() - suffix.len(), s.len() as int) == suffix
}

/// `s` without the network names at its end, however many there are.
pub open spec fn strip_suffixes(s: Seq<char>) -> Seq<char>
    decreases s.len(),
{
    if ends_with(s, testnet_suffix()) {
        strip_suffixes(s.take(s.len() - 8))
    } else if ends_with(s, near_suffix()) {
        strip_suffixes(s.take(s.len() - 5))
    } else {
        s
    }
}

/// `needle` stands in `hay` at the position `at`.
pub open spec fn occurs_at(hay: Seq<char>, needle: Seq<char>, at: int) -> bool {
    0 <= at && at + needle.len() <= hay.len() && hay.subrange(at, at + needle.len()) == needle
}

/// `needle` stands somewhere in `hay`. The empty `needle` stands in every `hay`.
pub open spec fn has_substring(hay: Seq<char>, needle: Seq<char>) -> bool {
    exists|at: int| occurs_at(hay, needle, at)
}

/// A key that is in lower case already matches a query that is, too: the query
/// occurs in the key without its network names.
pub open spec fn lowered_key_matches(lowered_key: Seq<char>, lowered_query: Seq<char>) -> bool {
    has_substring(strip_suffixes(lowered_key), lowered_query)
}

/// The key matches the query, whatever the case of either.
pub open spec fn key_matches(key: Seq<char>, query: Seq<char>) -> bool {
    lowered_key_matches(lowercase_of(key), lowercase_of(query))
}

/// What is stripped from a string has no network name at its end, is a prefix
/// of the string, and stripping it again changes nothing.
pub proof fn strip_suffixes_is_final(s: Seq<char>)
    ensures
        !ends_with(strip_suffixes(s), testnet_suffix()),
        !ends_with(strip_suffixes(s), near_suffix()),
        strip_suffixes(s).is_prefix_of(s),
        strip_suffixes(strip_suffixes(s)) == strip_suffixes(s),
    decreases s.len(),
{
    if ends_with(s, testnet_suffix()) {
        strip_suffixes_is_final(s.take(s.len() - 8));
    } else if ends_with(s, near_suffix()) {
        strip_suffixes_is_final(s.take(s.len() - 5));
    }
}

/// The characters of `s`, in order.
pub fn chars_of(s: &str) -> (r: Vec<char>)
    ensures
        r@ == s@,
{
    let mut out: Vec<char> = Vec::new();
    for c in it: s.chars()
        invariant
            out@ == it.seq().take(it.index() as int),
            it.seq() == s@,
    {
        out.push(c);
    }
    out
}

/// The characters of `.testnet`.
fn testnet_chars() -> (r: Vec<char>)
    ensures
        r@ == testnet_suffix(),
{
    let mut out: Vec<char> = Vec::new();
    out.push('.');
    out.push('t');
    out.push('e');
    out.push('s');
    out.push('t');
    out.push('n');
    out.push('e');
    out.push('t');
    out
}

/// The characters of `.near`.
fn near_chars() -> (r: Vec<char>)
    ensures
        r@ == near_suffix(),
{
    let mut out: Vec<char> = Vec::new();
    out.push('.');
    out.push('n');
    out.push('e');
    out.push('a');
    out.push('r');
    out
}

/// Whether `needle` stands at `at` in the first `end` characters of `hay`.
fn occurs_within(hay: &Vec<char>, end: usize, needle: &Vec<char>, at: usize) -> (r: bool)
    requires
        end <= hay.len(),
    ensures
        r == occurs_at(hay@.take(end as int), needle@, at as int),
{
    if at > end || needle.len() > end - at {
        return false;
    }
    let ghost window = hay@.take(end as int).subrange(at as int, at + needle.len());
    let mut i: usize = 0;
    while i < needle.len()
        invariant
            i <= needle.len(),
            at + needle.len() <= end <= hay.len(),
            window == hay@.take(end as int).subrange(at as int, at + needle.len()),
            forall|j: int| 0 <= j < i ==> window[j] == needle@[j],
        decreases needle.len() - i,
    {
        if hay[at + i] != needle[i] {
            assert(window[i as int] != needle@[i as int]);
            return false;
        }
        i += 1;
    }
    assert(window =~= needle@);
    true
}

/// How many characters of `chars` are left when the network names at its end are gone.
fn stripped_len(chars: &Vec<char>) -> (end: usize)
    ensures
        end <= chars.len(),
        chars@.take(end as int) == strip_suffixes(chars@),
{
    let testnet = testnet_chars();
    let near = near_chars();
    let mut end: usize = chars.len();
    assert(chars@.take(end as int) =~= chars@);
    loop
        invariant
            end <= chars.len(),
            testnet@ == testnet_suffix(),
            near@ == near_suffix(),
            strip_suffixes(chars@.take(end as int)) == strip_suffixes(chars@),
        ensures
            end <= chars.len(),
            chars@.take(end as int) == strip_suffixes(chars@),
        decreases end,
    {
        let ghost rest = chars@.take(end as int);
        if end >= 8 && occurs_within(chars, end, &testnet, end - 8) {
            assert(rest.take(rest.len() - 8) =~= chars@.take(end - 8));
            end -= 8;
        } else if end >= 5 && occurs_within(chars, end, &near, end - 5) {
            assert(rest.take(rest.len() - 5) =~= chars@.take(end - 5));
            end -= 5;
        } else {
            break;
        }
    }
    end
}

/// Whether `needle` stands somewhere in the first `end` characters of `hay`.
fn contains_within(hay: &Vec<char>, end: usize, needle: &Vec<char>) -> (r: bool)
    requires
        end <= hay.len(),
    ensures
        r == has_substring(hay@.take(end as int), needle@),
{
    if needle.len() > end {
        return false;
    }
    let last: usize = end - needle.len();
    let mut at: usize = 0;
    loop
        invariant
            at <= last,
            last == end - needle.len(),
            needle.len() <= end <= hay.len(),
            forall|k: int| 0 <= k < at ==> !occurs_at(hay@.take(end as int), needle@, k),
        decreases last - at,
    {
        if occurs_within(hay, end, needle, at) {
            return true;
        }
        if at == last {
            return false;
        }
        at += 1;
    }
}

/// Whether a key matches a query, both in lower case already: the query has to
/// occur in the key without the network names at its end.
pub fn normalized_contains(lowered_key: &str, lowered_query: &str) -> (r: bool)
    ensures
        r == lowered_key_matches(lowered_key@, lowered_query@),
{
    let key = chars_of(lowered_key);
    let query = chars_of(lowered_query);
    let end = stripped_len(&key);
    contains_within(&key, end, &query)
}

/// Whether the key matches the query, whatever the case of either: the network
/// names are taken from the end of the key, not of the query.
pub fn matches_query(key: &str, query: &str) -> (r: bool)
    ensures
        r == key_matches(key@, query@),
{
    let lowered_key = lowercase(key);
    let lowered_query = lowercase(query);
    normalized_contains(lowered_key.as_str(), lowered_query.as_str())
}

} // verus!
