//! The quorum engine: thresholds, votes, and the rule that turns a proposal
//! into a change of the whitelist.

use vstd::prelude::*;
use crate::error::ContractError;
use crate::state::{contains_name, names, Timestamp, VoteModel, WhitelistAction, WhitelistVote};
use crate::text::same_text;

verus! {

/// How long a proposal stays open, in seconds: seven days.
pub const VOTE_LIFETIME_SECONDS: u64 = 604_800;

/// How long a proposal stays open, in nanoseconds.
pub const VOTE_LIFETIME_NANOS: u64 = 604_800_000_000_000;

/// The confirmations needed among `n` members: two thirds, rounded up.
pub open spec fn threshold(n: nat) -> nat {
    (2 * n + 2) / 3
}

/// The confirmations needed among `voters` members.
///
/// Fails when twice the number of voters, plus two, does not fit the machine's
/// word.
pub fn required_majority(voters: usize) -> (r: Result<usize, ContractError>)
    ensures
        match r {
            Ok(t) => 2 * voters + 2 <= usize::MAX && t == threshold(voters as nat),
            Err(e) => 2 * voters + 2 > usize::MAX && e == ContractError::InvalidInput,
        },
{
    match voters.checked_mul(2) {
        None => Err(ContractError::InvalidInput),
        Some(doubled) => match doubled.checked_add(2) {
            None => Err(ContractError::InvalidInput),
            Some(padded) => Ok(padded / 3),
        },
    }
}

/// The list with `who` as a member: appended, unless it is one already.
pub open spec fn with_member(list: Seq<Seq<char>>, who: Seq<char>) -> Seq<Seq<char>> {
    if list.contains(who) {
        list
    } else {
        list.push(who)
    }
}

/// The test "is not `who`".
pub open spec fn is_not(who: Seq<char>) -> spec_fn(Seq<char>) -> bool {
    |a: Seq<char>| a != who
}

/// The list without `who`, the others in their order.
pub open spec fn without_member(list: Seq<Seq<char>>, who: Seq<char>) -> Seq<Seq<char>> {
    list.filter(is_not(who))
}

/// Adding a member keeps the accounts distinct and adds no other.
pub proof fn lemma_with_member(list: Seq<Seq<char>>, who: Seq<char>)
    requires
        list.no_duplicates(),
    ensures
        with_member(list, who).no_duplicates(),
        with_member(list, who).contains(who),
        forall|a: Seq<char>| with_member(list, who).contains(a) <==> (list.contains(a) || a == who),
{
    let r = with_member(list, who);
    if !list.contains(who) {
        assert(r[list.len() as int] == who);
        assert forall|a: Seq<char>| r.contains(a) <==> (list.contains(a) || a == who) by {
            if list.contains(a) {
                let i = choose|i: int| 0 <= i < list.len() && list[i] == a;
                assert(r[i] == a);
            }
            if r.contains(a) {
                let i = choose|i: int| 0 <= i < r.len() && r[i] == a;
                if i < list.len() {
                    assert(list[i] == a);
                }
            }
        }
    }
}

/// Membership in the list without `who`.
pub proof fn lemma_without_has(list: Seq<Seq<char>>, who: Seq<char>, a: Seq<char>)
    ensures
        without_member(list, who).contains(a) <==> (list.contains(a) && a != who),
    decreases list.len(),
{
    reveal(Seq::filter);
    let r = without_member(list, who);
    if list.len() > 0 {
        let rest = list.drop_last();
        let last = list.last();
        let sub = without_member(rest, who);
        lemma_without_has(rest, who, a);
        if r.contains(a) {
            let i = choose|i: int| 0 <= i < r.len() && r[i] == a;
            if i < sub.len() {
                assert(sub[i] == a);
                assert(sub.contains(a));
                let j = choose|j: int| 0 <= j < rest.len() && rest[j] == a;
                assert(list[j] == a);
            } else {
                assert(list[list.len() - 1] == a);
            }
        }
        if list.contains(a) && a != who {
            let j = choose|j: int| 0 <= j < list.len() && list[j] == a;
            if j < rest.len() {
                assert(rest[j] == a);
                assert(rest.contains(a));
                let i = choose|i: int| 0 <= i < sub.len() && sub[i] == a;
                assert(r[i] == a);
            } else {
                assert(r[r.len() - 1] == a);
            }
        }
    }
}

/// Removing an account removes it alone and keeps the others distinct.
pub proof fn lemma_without_member(list: Seq<Seq<char>>, who: Seq<char>)
    ensures
        !without_member(list, who).contains(who),
        forall|a: Seq<char>| #[trigger] without_member(list, who).contains(a) <==> (list.contains(a) && a != who),
        list.no_duplicates() ==> without_member(list, who).no_duplicates(),
        without_member(list, who).len() <= list.len(),
        !list.contains(who) ==> without_member(list, who) == list,
    decreases list.len(),
{
    reveal(Seq::filter);
    let r = without_member(list, who);
    lemma_without_has(list, who, who);
    assert forall|a: Seq<char>| #[trigger] r.contains(a) <==> (list.contains(a) && a != who) by {
        lemma_without_has(list, who, a);
    }
    if list.len() > 0 {
        let rest = list.drop_last();
        let last = list.last();
        lemma_without_member(rest, who);
        let sub = without_member(rest, who);
        if list.no_duplicates() {
            assert(rest.no_duplicates());
            if last != who {
                lemma_without_has(rest, who, last);
                assert(!rest.contains(last)) by {
                    if rest.contains(last) {
                        let j = choose|j: int| 0 <= j < rest.len() && rest[j] == last;
                        assert(list[j] == list[list.len() - 1]);
                    }
                }
                assert forall|i: int, j: int| 0 <= i < r.len() && 0 <= j < r.len() && i != j implies r[i] != r[j] by {
                    if i < sub.len() && j < sub.len() {
                    } else if i < sub.len() {
                        assert(sub.contains(sub[i]));
                    } else {
                        assert(sub.contains(sub[j]));
                    }
                }
            }
        }
        if !list.contains(who) {
            assert(!rest.contains(who)) by {
                if rest.contains(who) {
                    let j = choose|j: int| 0 <= j < rest.len() && rest[j] == who;
                    assert(list[j] == who);
                }
            }
            assert(last != who) by {
                assert(list[list.len() - 1] == last);
            }
            assert(r =~= list);
        }
    }
}

/// Makes `who` a member of `list`.
pub fn enrol(list: &mut Vec<String>, who: &str)
    ensures
        names(final(list)@) == with_member(names(old(list)@), who@),
{
    if !contains_name(list, who) {
        let ghost before = names(list@);
        list.push(who.to_string());
        proof {
            broadcast use vstd::string::group_string_axioms;
            assert(names(list@) =~= before.push(who@));
        }
    }
}

/// `list` without `who`.
pub fn expel(list: &Vec<String>, who: &str) -> (r: Vec<String>)
    ensures
        names(r@) == without_member(names(list@), who@),
{
    let mut out: Vec<String> = Vec::new();
    let mut i: usize = 0;
    proof {
        reveal(Seq::filter);
        assert(names(list@).take(0) =~= Seq::<Seq<char>>::empty());
        assert(names(out@) =~= Seq::<Seq<char>>::empty());
    }
    while i < list.len()
        invariant
            i <= list.len(),
            names(out@) == names(list@).take(i as int).filter(is_not(who@)),
        decreases list.len() - i,
    {
        let ghost seen = names(list@).take(i as int);
        let ghost kept = names(out@);
        proof {
            assert(names(list@).take(i + 1) =~= seen.push(list@[i as int]@));
            seen.lemma_filter_push(list@[i as int]@, is_not(who@));
        }
        if !same_text(list[i].as_str(), who) {
            out.push(list[i].clone());
            proof {
                assert(names(out@) =~= kept.push(list@[i as int]@));
            }
        }
        i = i + 1;
    }
    proof {
        assert(names(list@).take(list.len() as int) =~= names(list@));
    }
    out
}

/// Whether a vote for `action` at `now` starts a proposal afresh: where
/// none is kept, or the one kept has lapsed or asks for the other action.
pub open spec fn starts_fresh(existing: Option<VoteModel>, action: WhitelistAction, now: u64) -> bool {
    !(existing matches Some(v) && v.expires > now && v.action == action)
}

/// What is left of `existing` to build on: itself while it is open and asks
/// for `action`; otherwise a fresh proposal that lapses a lifetime from `now`.
pub open spec fn standing(existing: Option<VoteModel>, action: WhitelistAction, now: u64) -> VoteModel {
    match existing {
        Some(v) if v.expires > now && v.action == action => v,
        _ => VoteModel {
            confirmed: Seq::empty(),
            action,
            expires: (now + VOTE_LIFETIME_NANOS) as u64,
        },
    }
}

/// The proposal after `sender` has voted for `action` at `now`.
pub open spec fn cast(
    existing: Option<VoteModel>,
    sender: Seq<char>,
    action: WhitelistAction,
    now: u64,
) -> VoteModel {
    let base = standing(existing, action, now);
    VoteModel { confirmed: with_member(base.confirmed, sender), ..base }
}

/// The value of an optional proposal.
pub open spec fn vote_model(v: Option<WhitelistVote>) -> Option<VoteModel> {
    match v {
        Some(v) => Some(v@),
        None => None,
    }
}

/// Records `sender`'s vote for `action` on top of `existing`.
///
/// Only a proposal that is started afresh is given a deadline, so only
/// then must a lifetime from `now` be a time that can be told.
pub fn cast_vote(
    existing: Option<WhitelistVote>,
    sender: &str,
    action: WhitelistAction,
    now: Timestamp,
) -> (r: WhitelistVote)
    requires
        starts_fresh(vote_model(existing), action, now.nanos) ==> now.nanos + VOTE_LIFETIME_NANOS <= u64::MAX,
    ensures
        r@ == cast(vote_model(existing), sender@, action, now.nanos),
{
    let mut vote = match existing {
        Some(v) => {
            if v.expires.nanos > now.nanos && v.action == action {
                v
            } else {
                WhitelistVote { confirmed: Vec::new(), action, expires: now.plus_seconds(VOTE_LIFETIME_SECONDS) }
            }
        },
        None => WhitelistVote { confirmed: Vec::new(), action, expires: now.plus_seconds(VOTE_LIFETIME_SECONDS) },
    };
    proof {
        assert(vote@.confirmed =~= standing(vote_model(existing), action, now.nanos).confirmed);
    }
    enrol(&mut vote.confirmed, sender);
    vote
}

} // verus!
