//! The queries: what the registry lets anyone read.

use vstd::prelude::*;
use crate::assoc::{as_map, lemma_as_map_at, lemma_as_map_entry};
use crate::contract::State;
use crate::ledger::{ascending, entry_pairs, lemma_ascending_distinct};
use crate::msg::{Env, QueryAnnouncementsMsg, QueryMsg};
use crate::rules::opt_text;
use crate::state::{clone_names, names, Announcement, VoteModel, WhitelistVote};
use crate::store::{answers, listing, IndexKind};
use crate::text::key_lt;

verus! {

/// What a query answers.
#[derive(Debug, PartialEq, Eq)]
pub enum QueryResponse {
    Whitelist(Vec<String>),
    Pending(Vec<WhitelistVote>),
    Announcements(Vec<Announcement>),
}

/// The values of a list of proposals.
pub open spec fn vote_listing(v: Seq<WhitelistVote>) -> Seq<VoteModel> {
    v.map_values(|x: WhitelistVote| x@)
}

/// `found` holds, in the ascending order of the accounts `accounts`, the
/// proposals of `votes` that are open at `now`, and no others.
pub open spec fn lists_open(
    accounts: Seq<Seq<char>>,
    found: Seq<VoteModel>,
    votes: Map<Seq<char>, VoteModel>,
    now: u64,
) -> bool {
    &&& accounts.len() == found.len()
    &&& forall|i: int, j: int| 0 <= i < j < accounts.len() ==> key_lt(#[trigger] accounts[i], #[trigger] accounts[j])
    &&& forall|i: int| 0 <= i < accounts.len() ==> votes.contains_key(#[trigger] accounts[i]) && votes[accounts[i]]
        == found[i] && found[i].expires > now
    &&& forall|k: Seq<char>| votes.contains_key(k) && votes[k].expires > now ==> #[trigger] accounts.contains(k)
}

/// `found` is the list of the proposals that are open at `now`, in the
/// ascending order of the accounts they are about.
pub open spec fn open_listing(found: Seq<VoteModel>, votes: Map<Seq<char>, VoteModel>, now: u64) -> bool {
    exists|accounts: Seq<Seq<char>>| lists_open(accounts, found, votes, now)
}

/// The ordering a query for announcements reads, and the group it asks
/// for: the author's where one is given, else the topic's where one is
/// given, else that of time alone.
pub open spec fn asked_kind(msg: QueryAnnouncementsMsg) -> IndexKind {
    if msg.author is Some {
        IndexKind::Author
    } else if msg.topic is Some {
        IndexKind::Topic
    } else {
        IndexKind::Time
    }
}

/// The author a query names, else the topic it names.
pub open spec fn asked_group(msg: QueryAnnouncementsMsg) -> Option<Seq<char>> {
    if msg.author is Some {
        opt_text(msg.author)
    } else {
        opt_text(msg.topic)
    }
}

/// The time a query asks from, in nanoseconds, if it gives one.
pub open spec fn asked_since(msg: QueryAnnouncementsMsg) -> Option<u64> {
    match msg.since {
        Some(t) => Some(t.nanos),
        None => None,
    }
}

/// The current whitelist.
pub fn query_whitelist(state: &State, _env: Env) -> (r: Vec<String>)
    ensures
        names(r@) == state@.whitelist,
{
    clone_names(state.whitelist())
}

/// The proposals that are open at the time of the call, in the ascending
/// order of the accounts they are about.
pub fn query_pending(state: &State, env: Env) -> (r: Vec<WhitelistVote>)
    requires
        state.wf(),
    ensures
        open_listing(vote_listing(r@), state@.votes, env.block.time.nanos),
{
    let ledger = state.votes();
    let all = ledger.scan_all();
    let now = env.block.time.nanos;
    let ghost s = entry_pairs(all@);
    let ghost votes = state@.votes;
    proof {
        assert(ascending(s));
        lemma_ascending_distinct(s);
    }
    let mut out: Vec<WhitelistVote> = Vec::new();
    let ghost mut accounts: Seq<Seq<char>> = Seq::empty();
    let ghost mut places: Seq<int> = Seq::empty();
    let mut i: usize = 0;
    while i < all.len()
        invariant
            i <= all.len(),
            s == entry_pairs(all@),
            ascending(s),
            crate::assoc::distinct_keys(s),
            votes == as_map(s),
            accounts.len() == out.len(),
            places.len() == out.len(),
            forall|j: int| 0 <= j < places.len() ==> 0 <= #[trigger] places[j] < i && s[places[j]].0 == accounts[j]
                && s[places[j]].1 == vote_listing(out@)[j] && s[places[j]].1.expires > now,
            forall|a: int, b: int| 0 <= a < b < places.len() ==> #[trigger] places[a] < #[trigger] places[b],
            forall|m: int| 0 <= m < i && (#[trigger] s[m]).1.expires > now ==> accounts.contains(s[m].0),
        decreases all.len() - i,
    {
        let e = &all[i];
        assert(s[i as int] == e.pair());
        if e.vote.expires.nanos > now {
            let ghost prev = vote_listing(out@);
            let ghost prev_accounts = accounts;
            out.push(e.vote.clone());
            proof {
                accounts = accounts.push(e.key@);
                places = places.push(i as int);
                assert(vote_listing(out@) =~= prev.push(e.vote@));
                assert forall|m: int| 0 <= m < i + 1 && (#[trigger] s[m]).1.expires > now implies accounts.contains(
                    s[m].0,
                ) by {
                    if m == i {
                        assert(accounts[prev_accounts.len() as int] == s[m].0);
                    } else {
                        assert(prev_accounts.contains(s[m].0));
                        let j = choose|j: int| 0 <= j < prev_accounts.len() && prev_accounts[j] == s[m].0;
                        assert(accounts[j] == s[m].0);
                    }
                }
            }
        }
        i = i + 1;
    }
    proof {
        let found = vote_listing(out@);
        assert forall|a: int, b: int| 0 <= a < b < accounts.len() implies key_lt(#[trigger] accounts[a], #[trigger] accounts[b]) by {
            assert(places[a] < places[b]);
            assert(key_lt(s[places[a]].0, s[places[b]].0));
        }
        assert forall|j: int| 0 <= j < accounts.len() implies votes.contains_key(#[trigger] accounts[j]) && votes[accounts[j]]
            == found[j] && found[j].expires > now by {
            lemma_as_map_at(s, places[j]);
        }
        assert forall|k: Seq<char>| votes.contains_key(k) && votes[k].expires > now implies #[trigger] accounts.contains(
            k,
        ) by {
            lemma_as_map_entry(s, k);
            let m = crate::assoc::position(s, k);
            assert(s[m].1.expires > now);
        }
        assert(lists_open(accounts, found, votes, now));
    }
    out
}

/// The announcements a query asks for, newest first: those of the author
/// where one is given, else those of the topic where one is given, else
/// all; with a time, only those made at that time or later.
pub fn query_announcements(state: &State, _env: Env, msg: QueryAnnouncementsMsg) -> (r: Vec<Announcement>)
    requires
        state.wf(),
    ensures
        answers(listing(r@), state@.announcements, asked_kind(msg), asked_group(msg), asked_since(msg)),
{
    let start_at = match msg.since {
        Some(since) => Some(since.nanos),
        None => None,
    };
    let store = state.announcements();
    match msg.author {
        Some(author) => store.by_author(author.as_str(), start_at),
        None => match msg.topic {
            Some(topic) => store.by_topic(topic.as_str(), start_at),
            None => store.by_time(start_at),
        },
    }
}

/// What `r` must be to answer `msg`.
pub open spec fn answered(r: QueryResponse, state: &State, env: Env, msg: QueryMsg) -> bool {
    match msg {
        QueryMsg::Whitelist {  } => r matches QueryResponse::Whitelist(list) && names(list@) == state@.whitelist,
        QueryMsg::Pending {  } => r matches QueryResponse::Pending(list) && open_listing(
            vote_listing(list@),
            state@.votes,
            env.block.time.nanos,
        ),
        QueryMsg::Announcements(q) => r matches QueryResponse::Announcements(list) && answers(
            listing(list@),
            state@.announcements,
            asked_kind(q),
            asked_group(q),
            asked_since(q),
        ),
    }
}

/// Answers a query.
pub fn query(state: &State, env: Env, msg: QueryMsg) -> (r: QueryResponse)
    requires
        state.wf(),
    ensures
        answered(r, state, env, msg),
{
    match msg {
        QueryMsg::Announcements(q) => QueryResponse::Announcements(query_announcements(state, env, q)),
        QueryMsg::Whitelist {  } => QueryResponse::Whitelist(query_whitelist(state, env)),
        QueryMsg::Pending {  } => QueryResponse::Pending(query_pending(state, env)),
    }
}

} // verus!
