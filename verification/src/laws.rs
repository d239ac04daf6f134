//! What holds of the registry whatever it keeps.

use vstd::prelude::*;
use crate::batch::{
    carries, computable, kept, lemma_run_distinct, lemma_run_tally, open_votes, run, voted, Registry,
};
use crate::msg::ExecuteMsg;
use crate::error::ContractError;
use crate::query::lists_open;
use crate::quorum::{cast, lemma_without_member, starts_fresh, threshold, VOTE_LIFETIME_NANOS};
use crate::rules::{
    announce, counter, dispatch, in_use, refused, remove_topic, retract, sound, within_limits, StateModel,
};
use crate::state::{AnnouncementModel, VoteModel, WhitelistAction};
use crate::store::{answers, newest_first, selected, IndexKind};
use crate::text::decimal;

verus! {

/// The quorum among `n` members is two thirds of them, rounded up: the
/// least number whose triple is at least twice `n`. A proposal is carried
/// out exactly when its confirmations reach that number.
pub proof fn law_quorum_threshold(
    n: nat,
    r: Registry,
    sender: Seq<char>,
    target: Seq<char>,
    action: WhitelistAction,
    now: u64,
)
    ensures
        3 * threshold(n) >= 2 * n,
        threshold(n) > 0 ==> 3 * (threshold(n) - 1) < 2 * n,
        threshold(n) <= n,
        carries(r, sender, target, action, now) <==> cast(kept(r.votes, target), sender, action, now).confirmed.len()
            >= threshold(r.whitelist.len()),
        carries(r, sender, target, action, now) ==> !voted(r, sender, target, action, now).votes.contains_key(target),
        !carries(r, sender, target, action, now) ==> voted(r, sender, target, action, now).whitelist == r.whitelist,
{
}

/// No command makes a sound registry unsound: whatever is asked, by
/// whomever, the whitelist goes on naming no account twice, no proposal
/// comes to be confirmed twice by one account, and topics and
/// announcements stay under their own identifiers and ids.
pub proof fn law_commands_keep_sound(m: StateModel, now: u64, sender: Seq<char>, msg: ExecuteMsg)
    requires
        sound(m),
        within_limits(m, now, sender, msg),
    ensures
        sound(dispatch(m, now, sender, msg).state),
{
    let start = Registry { whitelist: m.whitelist, votes: open_votes(m.votes, now) };
    match msg {
        ExecuteMsg::AddToWhitelist { authors } => {
            lemma_run_distinct(start, sender, crate::state::names(authors@), WhitelistAction::Add, now);
        },
        ExecuteMsg::RemoveFromWhitelist { authors } => {
            lemma_run_distinct(start, sender, crate::state::names(authors@), WhitelistAction::Remove, now);
        },
        _ => {},
    }
}

/// An announcement gets an id that no announcement has: one more than the
/// last that was given out, and so greater than every id in use.
pub proof fn law_ids_are_fresh(
    m: StateModel,
    sender: Seq<char>,
    now: u64,
    title: Seq<char>,
    content: Seq<char>,
    topic: Option<Seq<char>>,
)
    requires
        sound(m),
        counter(m) < u64::MAX,
        announce(m, sender, now, title, content, topic).result is Ok,
    ensures
        ({
            let after = announce(m, sender, now, title, content, topic).state;
            let id = (counter(m) + 1) as u64;
            &&& !m.announcements.contains_key(id)
            &&& forall|other: u64| m.announcements.contains_key(other) ==> other < id
            &&& after.announcements.contains_key(id)
            &&& after.announcements.remove(id) == m.announcements
            &&& counter(after) == id
        }),
{
    let after = announce(m, sender, now, title, content, topic).state;
    let id = (counter(m) + 1) as u64;
    if m.announcements.contains_key(id) {
        assert(m.announcements[id].id <= counter(m));
    }
    assert forall|other: u64| m.announcements.contains_key(other) implies other < id by {
        assert(m.announcements[other].id <= counter(m));
    }
    assert(after.announcements.remove(id) =~= m.announcements);
}

/// Every target of a batch is either carried out or left pending, and no
/// more targets are processed than the batch names.
pub proof fn law_every_target_is_counted(
    start: Registry,
    sender: Seq<char>,
    targets: Seq<Seq<char>>,
    action: WhitelistAction,
    now: u64,
)
    ensures
        run(start, sender, targets, action, now) matches Some(p) ==> {
            &&& p.tally.confirmed + p.tally.pending == targets.len()
            &&& p.tally.processed <= targets.len()
        },
{
    lemma_run_tally(start, sender, targets, action, now);
}

/// A vote that is cast a second time changes nothing: while the proposal
/// is open, the same vote by the same caller leaves the confirmations, the
/// open proposals and the whitelist as the first left them.
pub proof fn law_idempotent_vote(
    r: Registry,
    sender: Seq<char>,
    target: Seq<char>,
    action: WhitelistAction,
    now: u64,
    later: u64,
)
    requires
        !carries(r, sender, target, action, now),
        starts_fresh(kept(r.votes, target), action, now) ==> now + VOTE_LIFETIME_NANOS <= u64::MAX,
        now <= later < voted(r, sender, target, action, now).votes[target].expires,
    ensures
        ({
            let once = voted(r, sender, target, action, now);
            &&& cast(kept(once.votes, target), sender, action, later) == once.votes[target]
            &&& !carries(once, sender, target, action, later)
            &&& voted(once, sender, target, action, later) == once
        }),
{
    let once = voted(r, sender, target, action, now);
    let first = cast(kept(r.votes, target), sender, action, now);
    assert(once.votes[target] == first);
    assert(first.confirmed.contains(sender)) by {
        let base = crate::quorum::standing(kept(r.votes, target), action, now);
        if !base.confirmed.contains(sender) {
            assert(base.confirmed.push(sender)[base.confirmed.len() as int] == sender);
        }
    }
    assert(first.expires > later);
    let second = cast(kept(once.votes, target), sender, action, later);
    assert(second == first);
    assert(once.votes.insert(target, second) =~= once.votes);
}

/// A proposal made at `made` and not voted on again is closed from seven
/// days after: it is not among the open proposals, no listing of the open
/// proposals holds its account, and a vote then starts from no
/// confirmations.
pub proof fn law_expiry(
    votes: Map<Seq<char>, VoteModel>,
    target: Seq<char>,
    sender: Seq<char>,
    action: WhitelistAction,
    made: u64,
    now: u64,
    voter: Seq<char>,
    again: WhitelistAction,
    accounts: Seq<Seq<char>>,
    found: Seq<VoteModel>,
)
    requires
        made + VOTE_LIFETIME_NANOS <= u64::MAX,
        now >= made + VOTE_LIFETIME_NANOS,
        votes.contains_key(target),
        votes[target] == cast(None, sender, action, made),
    ensures
        votes[target].expires == made + VOTE_LIFETIME_NANOS,
        !open_votes(votes, now).contains_key(target),
        lists_open(accounts, found, votes, now) ==> !accounts.contains(target),
        cast(kept(votes, target), voter, again, now).confirmed == seq![voter],
        cast(kept(open_votes(votes, now), target), voter, again, now).confirmed == seq![voter],
{
    if lists_open(accounts, found, votes, now) && accounts.contains(target) {
        let i = choose|i: int| 0 <= i < accounts.len() && accounts[i] == target;
        assert(votes[accounts[i]] == found[i]);
    }
    assert(cast(kept(votes, target), voter, again, now).confirmed =~= seq![voter]);
    assert(cast(kept(open_votes(votes, now), target), voter, again, now).confirmed =~= seq![voter]);
}

/// A vote on a proposal that has lapsed starts again from the caller
/// alone: what was confirmed before the deadline is not counted. Among
/// more than one member the proposal stays open, with a lifetime from the
/// time of the vote, and the whitelist stays as it is.
pub proof fn law_lapsed_vote_starts_again(
    m: StateModel,
    sender: Seq<char>,
    target: Seq<char>,
    action: WhitelistAction,
    now: u64,
)
    requires
        m.whitelist.contains(sender),
        m.votes.contains_key(target),
        m.votes[target].expires <= now,
        m.whitelist.len() > 1,
        computable(m.whitelist.len()),
        now + VOTE_LIFETIME_NANOS <= u64::MAX,
    ensures
        ({
            let after = crate::rules::vote(m, sender, now, seq![target], action);
            &&& after.result matches Ok(attributes) && attributes[3] == ("confirmed"@, decimal(0)) && attributes[4]
                == ("pending"@, decimal(1))
            &&& after.state.whitelist == m.whitelist
            &&& after.state.votes.contains_key(target)
            &&& after.state.votes[target] == (VoteModel {
                confirmed: seq![sender],
                action,
                expires: (now + VOTE_LIFETIME_NANOS) as u64,
            })
        }),
{
    let start = Registry { whitelist: m.whitelist, votes: open_votes(m.votes, now) };
    let targets = seq![target];
    reveal_with_fuel(run, 2);
    assert(targets.drop_last() =~= Seq::<Seq<char>>::empty());
    assert(targets.last() == target);
    assert(kept(start.votes, target) is None);
    let v = cast(kept(start.votes, target), sender, action, now);
    assert(v.confirmed =~= seq![sender]);
    assert(threshold(m.whitelist.len()) >= 2) by {
        assert(m.whitelist.len() >= 2);
    }
    assert(!carries(start, sender, target, action, now));
}

/// Once the removal of an account has reached its quorum, that account is
/// off the whitelist, and an announcement by it is turned down as
/// unauthorised.
pub proof fn law_removed_cannot_announce(
    m: StateModel,
    sender: Seq<char>,
    removed: Seq<char>,
    now: u64,
    later: u64,
    title: Seq<char>,
    content: Seq<char>,
    topic: Option<Seq<char>>,
)
    requires
        carries(Registry { whitelist: m.whitelist, votes: m.votes }, sender, removed, WhitelistAction::Remove, now),
    ensures
        ({
            let after = voted(
                Registry { whitelist: m.whitelist, votes: m.votes },
                sender,
                removed,
                WhitelistAction::Remove,
                now,
            );
            let next = StateModel { whitelist: after.whitelist, votes: after.votes, ..m };
            &&& !next.whitelist.contains(removed)
            &&& announce(next, removed, later, title, content, topic) == refused(next, ContractError::Unauthorized)
        }),
{
    lemma_without_member(m.whitelist, removed);
}

/// The orderings agree: the announcements in order of time are exactly
/// the records, newest first and none twice; each of them is found under
/// its author and under its topic, and whatever is found under an author or
/// a topic is one of them.
pub proof fn law_index_consistency(
    records: Map<u64, AnnouncementModel>,
    all: Seq<AnnouncementModel>,
    author: Seq<char>,
    by_author: Seq<AnnouncementModel>,
    topic: Seq<char>,
    by_topic: Seq<AnnouncementModel>,
)
    requires
        forall|id: u64| records.contains_key(id) ==> (#[trigger] records[id]).id == id,
        answers(all, records, IndexKind::Time, None, None),
        answers(by_author, records, IndexKind::Author, Some(author), None),
        answers(by_topic, records, IndexKind::Topic, Some(topic), None),
    ensures
        newest_first(all),
        all.no_duplicates(),
        forall|id: u64| records.contains_key(id) <==> #[trigger] all.contains(records[id]) && records[id].id == id,
        forall|a: AnnouncementModel| #[trigger] all.contains(a) ==> records.contains_key(a.id) && records[a.id] == a,
        forall|a: AnnouncementModel| #[trigger] by_author.contains(a) <==> all.contains(a) && a.author == author,
        forall|a: AnnouncementModel| #[trigger] by_topic.contains(a) <==> all.contains(a) && a.topic_key() == topic,
{
    assert forall|i: int, j: int| 0 <= i < all.len() && 0 <= j < all.len() && i != j implies all[i] != all[j] by {
        if i < j {
            assert(crate::store::newer(all[i], all[j]));
        } else {
            assert(crate::store::newer(all[j], all[i]));
        }
    }
    assert forall|id: u64| records.contains_key(id) <==> #[trigger] all.contains(records[id]) && records[id].id == id by {
        if all.contains(records[id]) && records[id].id == id {
            assert(records.contains_key(records[id].id));
        }
    }
    assert forall|a: AnnouncementModel| #[trigger] by_author.contains(a) <==> all.contains(a) && a.author == author by {
        if all.contains(a) && a.author == author {
            assert(records.contains_key(a.id) && records[a.id] == a);
        }
    }
    assert forall|a: AnnouncementModel| #[trigger] by_topic.contains(a) <==> all.contains(a) && a.topic_key() == topic by {
        if all.contains(a) && a.topic_key() == topic {
            assert(records.contains_key(a.id) && records[a.id] == a);
        }
    }
}

/// A new announcement shows in a query exactly where the query asks for
/// it: always by time, by author under the caller, by topic under its
/// topic, or under the empty identifier where it has none. What a query
/// held before it holds after, and no query holds an id twice.
pub proof fn law_created_shows_in_queries(
    m: StateModel,
    sender: Seq<char>,
    now: u64,
    title: Seq<char>,
    content: Seq<char>,
    topic: Option<Seq<char>>,
    kind: IndexKind,
    group: Option<Seq<char>>,
    since: Option<u64>,
    before: Seq<AnnouncementModel>,
    after: Seq<AnnouncementModel>,
)
    requires
        sound(m),
        counter(m) < u64::MAX,
        announce(m, sender, now, title, content, topic).result is Ok,
        answers(before, m.announcements, kind, group, since),
        answers(after, announce(m, sender, now, title, content, topic).state.announcements, kind, group, since),
    ensures
        ({
            let id = (counter(m) + 1) as u64;
            let made = announce(m, sender, now, title, content, topic).state.announcements[id];
            &&& made.id == id && made.author == sender && made.time == now
            &&& made.topic_key() == match topic {
                Some(t) => t,
                None => Seq::<char>::empty(),
            }
            &&& after.contains(made) <==> selected(made, kind, group, since)
            &&& forall|a: AnnouncementModel| a != made ==> (#[trigger] after.contains(a) <==> before.contains(a))
            &&& !before.contains(made)
            &&& forall|i: int, j: int| 0 <= i < j < after.len() ==> (#[trigger] after[i]).id != (#[trigger] after[j]).id
            &&& selected(made, IndexKind::Time, None, None)
            &&& selected(made, IndexKind::Author, Some(sender), None)
            &&& selected(made, IndexKind::Topic, Some(made.topic_key()), None)
        }),
{
    let id = (counter(m) + 1) as u64;
    let next = announce(m, sender, now, title, content, topic).state.announcements;
    let made = next[id];
    if m.announcements.contains_key(id) {
        assert(m.announcements[id].id <= counter(m));
    }
    assert forall|a: AnnouncementModel| a != made implies (#[trigger] after.contains(a) <==> before.contains(a)) by {
        if after.contains(a) {
            assert(next.contains_key(a.id) && next[a.id] == a);
            assert(a.id != id);
        }
        if before.contains(a) {
            assert(m.announcements.contains_key(a.id) && m.announcements[a.id] == a);
            assert(a.id != id);
        }
    }
    assert forall|i: int, j: int| 0 <= i < j < after.len() implies (#[trigger] after[i]).id != (#[trigger] after[j]).id by {
        assert(after.contains(after[i]));
        assert(after.contains(after[j]));
        assert(crate::store::newer(after[i], after[j]));
        if after[i].id == after[j].id {
            assert(next[after[i].id] == after[i]);
            assert(next[after[j].id] == after[j]);
        }
    }
}

/// An announcement that is made with a topic keeps the topic in use: as
/// long as it is kept, the topic cannot be removed.
pub proof fn law_filed_topic_is_in_use(
    m: StateModel,
    sender: Seq<char>,
    now: u64,
    title: Seq<char>,
    content: Seq<char>,
    topic: Seq<char>,
    remover: Seq<char>,
)
    requires
        m.topics.contains_key(topic) ==> m.topics[topic].identifier == topic,
        announce(m, sender, now, title, content, Some(topic)).result is Ok,
    ensures
        ({
            let filed = announce(m, sender, now, title, content, Some(topic)).state;
            &&& in_use(filed, topic)
            &&& filed.whitelist.contains(remover) ==> remove_topic(filed, remover, topic) == refused(
                filed,
                ContractError::InUse,
            )
        }),
{
    let filed = announce(m, sender, now, title, content, Some(topic)).state;
    let id = (crate::rules::counter(m) + 1) as u64;
    assert(filed.announcements.contains_key(id));
    assert(filed.announcements[id].refers_to(topic));
}

/// A topic cannot be removed while an announcement has it, and can be as
/// soon as the last such announcement is deleted. Announcements without a
/// topic never stand in the way, whatever the identifier.
pub proof fn law_referential_integrity(m: StateModel, sender: Seq<char>, topic: Seq<char>, last: u64)
    requires
        m.whitelist.contains(sender),
        forall|id: u64| m.announcements.contains_key(id) && id != last ==> !(#[trigger] m.announcements[id]).refers_to(
            topic,
        ),
    ensures
        (forall|id: u64| m.announcements.contains_key(id) ==> (#[trigger] m.announcements[id]).topic is None)
            ==> remove_topic(m, sender, topic).result is Ok,
        in_use(m, topic) ==> remove_topic(m, sender, topic) == refused(m, ContractError::InUse),
        !in_use(m, topic) ==> remove_topic(m, sender, topic).result is Ok,
        ({
            let deleted = retract(m, sender, last).state;
            &&& !in_use(deleted, topic)
            &&& remove_topic(deleted, sender, topic).result is Ok
            &&& remove_topic(deleted, sender, topic).state.topics == m.topics.remove(topic)
            &&& !remove_topic(deleted, sender, topic).state.topics.contains_key(topic)
        }),
{
    let deleted = retract(m, sender, last).state;
    if in_use(deleted, topic) {
        let id = choose|id: u64| deleted.announcements.contains_key(id) && (#[trigger] deleted.announcements[id]).refers_to(
            topic,
        );
        assert(m.announcements.contains_key(id) && id != last);
        assert(!m.announcements[id].refers_to(topic));
    }
    if in_use(m, topic) {
        let id = choose|id: u64| m.announcements.contains_key(id) && (#[trigger] m.announcements[id]).refers_to(topic);
        assert(m.announcements[id].topic is Some);
    }
}

} // verus!
