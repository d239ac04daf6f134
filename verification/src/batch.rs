//! One call of the quorum engine over a batch of target accounts.

use vstd::prelude::*;
use crate::assoc::{as_map, keeps, lemma_as_map_at, lemma_as_map_entry, position};
use crate::error::ContractError;
use crate::ledger::{entry_pairs, lemma_ascending_distinct, VoteLedger};
use crate::quorum::{
    cast, cast_vote, enrol, expel, lemma_with_member, lemma_without_member, required_majority, standing,
    starts_fresh, threshold, vote_model, with_member, without_member, VOTE_LIFETIME_NANOS,
};
use crate::state::{contains_name, names, Timestamp, VoteModel, WhitelistAction};

verus! {

/// What the quorum engine rules over: the whitelist and the open proposals.
pub struct Registry {
    pub whitelist: Seq<Seq<char>>,
    pub votes: Map<Seq<char>, VoteModel>,
}

/// The counters of a batch.
pub struct Tally {
    pub processed: nat,
    pub confirmed: nat,
    pub pending: nat,
}

/// A batch part-way through.
pub struct Progress {
    pub registry: Registry,
    pub tally: Tally,
}

/// The proposals that are still open at `now`: those that lapse later.
pub open spec fn open_votes(votes: Map<Seq<char>, VoteModel>, now: u64) -> Map<Seq<char>, VoteModel> {
    Map::new(|k: Seq<char>| votes.contains_key(k) && votes[k].expires > now, |k: Seq<char>| votes[k])
}

/// The proposal kept for `target`, if any.
pub open spec fn kept(votes: Map<Seq<char>, VoteModel>, target: Seq<char>) -> Option<VoteModel> {
    if votes.contains_key(target) {
        Some(votes[target])
    } else {
        None
    }
}

/// Whether a vote on `target` counts as processed: an `Add` for an account
/// that is not a member, a `Remove` for one that is.
pub open spec fn counts(whitelist: Seq<Seq<char>>, target: Seq<char>, action: WhitelistAction) -> bool {
    match action {
        WhitelistAction::Add => !whitelist.contains(target),
        WhitelistAction::Remove => whitelist.contains(target),
    }
}

/// The whitelist once `action` on `target` has been carried out.
pub open spec fn applied(whitelist: Seq<Seq<char>>, target: Seq<char>, action: WhitelistAction) -> Seq<Seq<char>> {
    match action {
        WhitelistAction::Add => with_member(whitelist, target),
        WhitelistAction::Remove => without_member(whitelist, target),
    }
}

/// Whether `sender`'s vote brings the proposal on `target` to its quorum.
pub open spec fn carries(
    r: Registry,
    sender: Seq<char>,
    target: Seq<char>,
    action: WhitelistAction,
    now: u64,
) -> bool {
    cast(kept(r.votes, target), sender, action, now).confirmed.len() >= threshold(r.whitelist.len())
}

/// The registry after `sender` has voted for `action` on `target`.
pub open spec fn voted(
    r: Registry,
    sender: Seq<char>,
    target: Seq<char>,
    action: WhitelistAction,
    now: u64,
) -> Registry {
    if carries(r, sender, target, action, now) {
        Registry { whitelist: applied(r.whitelist, target, action), votes: r.votes.remove(target) }
    } else {
        Registry {
            whitelist: r.whitelist,
            votes: r.votes.insert(target, cast(kept(r.votes, target), sender, action, now)),
        }
    }
}

/// One target further.
pub open spec fn advance(
    p: Progress,
    sender: Seq<char>,
    target: Seq<char>,
    action: WhitelistAction,
    now: u64,
) -> Progress {
    let hit = carries(p.registry, sender, target, action, now);
    Progress {
        registry: voted(p.registry, sender, target, action, now),
        tally: Tally {
            processed: if counts(p.registry.whitelist, target, action) {
                p.tally.processed + 1
            } else {
                p.tally.processed
            },
            confirmed: if hit {
                p.tally.confirmed + 1
            } else {
                p.tally.confirmed
            },
            pending: if hit {
                p.tally.pending
            } else {
                p.tally.pending + 1
            },
        },
    }
}

/// Whether the threshold for `n` members can be computed in a machine word.
pub open spec fn computable(n: nat) -> bool {
    2 * n + 2 <= usize::MAX
}

/// The batch carried through `targets` in order, from `start`; `None` where
/// a threshold on the way cannot be computed.
pub open spec fn run(
    start: Registry,
    sender: Seq<char>,
    targets: Seq<Seq<char>>,
    action: WhitelistAction,
    now: u64,
) -> Option<Progress>
    decreases targets.len(),
{
    if targets.len() == 0 {
        Some(Progress { registry: start, tally: Tally { processed: 0, confirmed: 0, pending: 0 } })
    } else {
        match run(start, sender, targets.drop_last(), action, now) {
            Some(p) => if computable(p.registry.whitelist.len()) {
                Some(advance(p, sender, targets.last(), action, now))
            } else {
                None
            },
            None => None,
        }
    }
}

/// Whether the vote on `target` gets as far as starting a proposal
/// afresh: the threshold can be computed, and no open proposal for the
/// action is kept for the target.
pub open spec fn dates_proposal(r: Registry, target: Seq<char>, action: WhitelistAction, now: u64) -> bool {
    computable(r.whitelist.len()) && starts_fresh(kept(r.votes, target), action, now)
}

/// Whether some vote of the batch starts a proposal afresh, and so gives
/// it a deadline.
pub open spec fn sets_deadline(
    start: Registry,
    sender: Seq<char>,
    targets: Seq<Seq<char>>,
    action: WhitelistAction,
    now: u64,
) -> bool
    decreases targets.len(),
{
    if targets.len() == 0 {
        false
    } else {
        sets_deadline(start, sender, targets.drop_last(), action, now) || (run(
            start,
            sender,
            targets.drop_last(),
            action,
            now,
        ) matches Some(p) && dates_proposal(p.registry, targets.last(), action, now))
    }
}

/// A deadline that is set on the way through a part of the targets is set
/// on the way through all of them.
pub proof fn lemma_sets_deadline_part(
    start: Registry,
    sender: Seq<char>,
    targets: Seq<Seq<char>>,
    action: WhitelistAction,
    now: u64,
    n: int,
)
    requires
        0 <= n <= targets.len(),
        sets_deadline(start, sender, targets.take(n), action, now),
    ensures
        sets_deadline(start, sender, targets, action, now),
    decreases targets.len(),
{
    if n == targets.len() {
        assert(targets.take(n) =~= targets);
    } else {
        assert(targets.drop_last().take(n) =~= targets.take(n));
        lemma_sets_deadline_part(start, sender, targets.drop_last(), action, now, n);
    }
}

/// A batch that cannot be carried through a part of the targets cannot be
/// carried through all of them.
pub proof fn lemma_run_stuck(
    start: Registry,
    sender: Seq<char>,
    targets: Seq<Seq<char>>,
    action: WhitelistAction,
    now: u64,
    n: int,
)
    requires
        0 <= n <= targets.len(),
        run(start, sender, targets.take(n), action, now) is None,
    ensures
        run(start, sender, targets, action, now) is None,
    decreases targets.len(),
{
    if n == targets.len() {
        assert(targets.take(n) =~= targets);
    } else {
        assert(targets.drop_last().take(n) =~= targets.take(n));
        lemma_run_stuck(start, sender, targets.drop_last(), action, now, n);
    }
}

/// The tally of a batch adds up to its length.
pub proof fn lemma_run_tally(
    start: Registry,
    sender: Seq<char>,
    targets: Seq<Seq<char>>,
    action: WhitelistAction,
    now: u64,
)
    ensures
        run(start, sender, targets, action, now) matches Some(p) ==> {
            &&& p.tally.confirmed + p.tally.pending == targets.len()
            &&& p.tally.processed <= targets.len()
        },
    decreases targets.len(),
{
    if targets.len() > 0 {
        lemma_run_tally(start, sender, targets.drop_last(), action, now);
    }
}

/// A vote keeps the accounts of the whitelist distinct, and those that
/// confirm each proposal.
pub proof fn lemma_voted_distinct(
    r: Registry,
    sender: Seq<char>,
    target: Seq<char>,
    action: WhitelistAction,
    now: u64,
)
    requires
        r.whitelist.no_duplicates(),
        forall|k: Seq<char>| r.votes.contains_key(k) ==> (#[trigger] r.votes[k]).confirmed.no_duplicates(),
    ensures
        voted(r, sender, target, action, now).whitelist.no_duplicates(),
        forall|k: Seq<char>|
            voted(r, sender, target, action, now).votes.contains_key(k) ==> (#[trigger] voted(
                r,
                sender,
                target,
                action,
                now,
            ).votes[k]).confirmed.no_duplicates(),
        cast(kept(r.votes, target), sender, action, now).confirmed.no_duplicates(),
{
    lemma_with_member(r.whitelist, target);
    lemma_without_member(r.whitelist, target);
    lemma_with_member(standing(kept(r.votes, target), action, now).confirmed, sender);
}

/// A batch keeps the accounts of the whitelist distinct, and those that
/// confirm each proposal.
pub proof fn lemma_run_distinct(
    start: Registry,
    sender: Seq<char>,
    targets: Seq<Seq<char>>,
    action: WhitelistAction,
    now: u64,
)
    requires
        start.whitelist.no_duplicates(),
        forall|k: Seq<char>| start.votes.contains_key(k) ==> (#[trigger] start.votes[k]).confirmed.no_duplicates(),
    ensures
        run(start, sender, targets, action, now) matches Some(p) ==> {
            &&& p.registry.whitelist.no_duplicates()
            &&& forall|k: Seq<char>|
                p.registry.votes.contains_key(k) ==> (#[trigger] p.registry.votes[k]).confirmed.no_duplicates()
        },
    decreases targets.len(),
{
    if targets.len() > 0 {
        lemma_run_distinct(start, sender, targets.drop_last(), action, now);
        if let Some(p) = run(start, sender, targets.drop_last(), action, now) {
            lemma_voted_distinct(p.registry, sender, targets.last(), action, now);
        }
    }
}

/// The counters of a batch, as the engine counts them.
#[derive(Clone, Copy, Debug, PartialEq, Eq, Structural)]
pub struct BatchCount {
    pub processed: usize,
    pub confirmed: usize,
    pub pending: usize,
}

impl View for BatchCount {
    type V = Tally;

    open spec fn view(&self) -> Tally {
        Tally {
            processed: self.processed as nat,
            confirmed: self.confirmed as nat,
            pending: self.pending as nat,
        }
    }
}

/// Drops every proposal that has lapsed by `now`.
pub fn sweep_expired(ledger: &mut VoteLedger, now: Timestamp)
    requires
        old(ledger).wf(),
    ensures
        final(ledger).wf(),
        final(ledger)@ == open_votes(old(ledger)@, now.nanos),
{
    let all = ledger.scan_all();
    let ghost s = ledger.pairs();
    let ghost orig = ledger@;
    proof {
        lemma_ascending_distinct(s);
    }
    let mut i: usize = 0;
    while i < all.len()
        invariant
            i <= all.len(),
            ledger.wf(),
            entry_pairs(all@) == s,
            crate::assoc::distinct_keys(s),
            orig == as_map(s),
            ledger@ =~= Map::new(
                |k: Seq<char>| orig.contains_key(k) && !(orig[k].expires <= now.nanos && position(s, k) < i),
                |k: Seq<char>| orig[k],
            ),
        decreases all.len() - i,
    {
        let ghost before = ledger@;
        proof {
            assert(s[i as int] == all@[i as int].pair());
            lemma_as_map_at(s, i as int);
        }
        if all[i].vote.expires.nanos <= now.nanos {
            ledger.delete(all[i].key.as_str());
        }
        proof {
            let key = s[i as int].0;
            let next = Map::new(
                |k: Seq<char>| orig.contains_key(k) && !(orig[k].expires <= now.nanos && position(s, k) < i + 1),
                |k: Seq<char>| orig[k],
            );
            assert forall|k: Seq<char>| ledger@.contains_key(k) == next.contains_key(k) by {
                if orig.contains_key(k) && k != key {
                    lemma_as_map_entry(s, k);
                    assert(position(s, k) != i);
                }
            }
            assert(ledger@ =~= next);
        }
        i = i + 1;
    }
    proof {
        assert forall|k: Seq<char>| orig.contains_key(k) implies position(s, k) < all.len() by {
            lemma_as_map_entry(s, k);
        }
        assert(ledger@ =~= open_votes(orig, now.nanos));
    }
}

/// The registry that a whitelist and a ledger stand for.
pub open spec fn registry_of(whitelist: &Vec<String>, ledger: &VoteLedger) -> Registry {
    Registry { whitelist: names(whitelist@), votes: ledger@ }
}

/// Takes `sender`'s vote for `action` on `target`: counts it, and either
/// carries the proposal out or keeps it open.
pub fn process_target(
    whitelist: &mut Vec<String>,
    ledger: &mut VoteLedger,
    count: &mut BatchCount,
    sender: &str,
    target: &str,
    action: WhitelistAction,
    now: Timestamp,
) -> (r: Result<(), ContractError>)
    requires
        old(ledger).wf(),
        dates_proposal(registry_of(old(whitelist), old(ledger)), target@, action, now.nanos) ==> now.nanos
            + VOTE_LIFETIME_NANOS <= u64::MAX,
        computable(names(old(whitelist)@).len()) ==> {
            let r = registry_of(old(whitelist), old(ledger));
            &&& counts(r.whitelist, target@, action) ==> old(count).processed < usize::MAX
            &&& carries(r, sender@, target@, action, now.nanos) ==> old(count).confirmed < usize::MAX
            &&& !carries(r, sender@, target@, action, now.nanos) ==> old(count).pending < usize::MAX
        },
    ensures
        final(ledger).wf(),
        match r {
            Ok(()) => {
                &&& computable(names(old(whitelist)@).len())
                &&& (Progress { registry: registry_of(final(whitelist), final(ledger)), tally: final(count)@ })
                    == advance(
                    (Progress { registry: registry_of(old(whitelist), old(ledger)), tally: old(count)@ }),
                    sender@,
                    target@,
                    action,
                    now.nanos,
                )
            },
            Err(e) => {
                &&& e == ContractError::InvalidInput
                &&& !computable(names(old(whitelist)@).len())
                &&& *final(whitelist) == *old(whitelist)
                &&& *final(ledger) == *old(ledger)
                &&& *final(count) == *old(count)
            },
        },
{
    let needed = match required_majority(whitelist.len()) {
        Ok(n) => n,
        Err(e) => {
            return Err(e);
        },
    };
    let member = contains_name(whitelist, target);
    let eligible = match action {
        WhitelistAction::Add => !member,
        WhitelistAction::Remove => member,
    };
    if eligible {
        count.processed = count.processed + 1;
    }
    let existing = ledger.get(target);
    proof {
        assert(vote_model(existing) == kept(ledger@, target@));
    }
    let vote = cast_vote(existing, sender, action, now);
    if vote.confirmed.len() >= needed {
        match action {
            WhitelistAction::Add => {
                enrol(whitelist, target);
            },
            WhitelistAction::Remove => {
                let rest = expel(whitelist, target);
                *whitelist = rest;
            },
        }
        ledger.delete(target);
        count.confirmed = count.confirmed + 1;
    } else {
        ledger.put(target.to_string(), vote);
        count.pending = count.pending + 1;
    }
    proof {
        broadcast use vstd::string::group_string_axioms;
    }
    Ok(())
}

} // verus!
