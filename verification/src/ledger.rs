//! The vote ledger: pending proposals, each kept under the account it is
//! about, in ascending order of the accounts.

use vstd::prelude::*;
use crate::assoc::{
    as_map, distinct_keys, has_key, keeps, lemma_as_map_at, lemma_as_map_empty,
    lemma_as_map_insert, lemma_as_map_remove, lemma_as_map_update,
};
use crate::state::{VoteModel, WhitelistVote};
use crate::text::{key_less, key_lt, lemma_key_lt_total, lemma_key_lt_transitive, same_text};

verus! {

/// Keys grow strictly from each pair to the next.
pub open spec fn ascending<V>(s: Seq<(Seq<char>, V)>) -> bool {
    forall|i: int, j: int| 0 <= i < j < s.len() ==> key_lt((#[trigger] s[i]).0, (#[trigger] s[j]).0)
}

/// Keys in strictly ascending order are distinct.
pub proof fn lemma_ascending_distinct<V>(s: Seq<(Seq<char>, V)>)
    requires
        ascending(s),
    ensures
        distinct_keys(s),
{
    assert forall|i: int, j: int| 0 <= i < j < s.len() implies (#[trigger] s[i]).0 != (#[trigger] s[j]).0 by {
        lemma_key_lt_total(s[i].0, s[j].0);
    }
}

/// A proposal beside the account it is about.
#[derive(Debug, PartialEq, Eq)]
pub struct LedgerEntry {
    pub key: String,
    pub vote: WhitelistVote,
}

impl LedgerEntry {
    /// The account and the value of the proposal.
    pub open spec fn pair(self) -> (Seq<char>, VoteModel) {
        (self.key@, self.vote@)
    }
}

/// The pairs a list of entries stands for.
pub open spec fn entry_pairs(v: Seq<LedgerEntry>) -> Seq<(Seq<char>, VoteModel)> {
    v.map_values(|e: LedgerEntry| e.pair())
}

/// The open proposals, one for each account that has one.
#[derive(Debug)]
pub struct VoteLedger {
    entries: Vec<LedgerEntry>,
}

impl View for VoteLedger {
    type V = Map<Seq<char>, VoteModel>;

    /// The ledger as a map from account to proposal.
    open spec fn view(&self) -> Map<Seq<char>, VoteModel> {
        as_map(self.pairs())
    }
}

impl VoteLedger {
    /// The ledger's entries in the order it keeps them.
    pub closed spec fn pairs(&self) -> Seq<(Seq<char>, VoteModel)> {
        entry_pairs(self.entries@)
    }

    /// Entries are kept in strictly ascending order of their accounts.
    pub open spec fn wf(&self) -> bool {
        ascending(self.pairs())
    }

    /// A ledger without proposals.
    pub fn new() -> (r: VoteLedger)
        ensures
            r.wf(),
            r.pairs() == Seq::<(Seq<char>, VoteModel)>::empty(),
            r@ == Map::<Seq<char>, VoteModel>::empty(),
    {
        let r = VoteLedger { entries: Vec::new() };
        proof {
            assert(r.pairs() =~= Seq::<(Seq<char>, VoteModel)>::empty());
            lemma_as_map_empty::<Seq<char>, VoteModel>();
        }
        r
    }

    /// How many proposals the ledger keeps.
    pub fn len(&self) -> (n: usize)
        ensures
            n == self.pairs().len(),
    {
        self.entries.len()
    }

    /// The first place whose account does not come before `key`.
    fn lower_bound(&self, key: &str) -> (p: usize)
        requires
            self.wf(),
        ensures
            p <= self.pairs().len(),
            forall|i: int| 0 <= i < p ==> key_lt(#[trigger] self.pairs()[i].0, key@),
            forall|i: int| p <= i < self.pairs().len() ==> !key_lt(#[trigger] self.pairs()[i].0, key@),
    {
        let mut p: usize = 0;
        while p < self.entries.len()
            invariant
                p <= self.entries.len(),
                self.wf(),
                forall|i: int| 0 <= i < p ==> key_lt(#[trigger] self.pairs()[i].0, key@),
            decreases self.entries.len() - p,
        {
            if !key_less(self.entries[p].key.as_str(), key) {
                proof {
                    let s = self.pairs();
                    assert(s[p as int].0 == self.entries@[p as int].key@);
                    assert forall|i: int| p <= i < s.len() implies !key_lt(#[trigger] s[i].0, key@) by {
                        if i > p && key_lt(s[i].0, key@) {
                            assert(key_lt(s[p as int].0, s[i].0));
                            lemma_key_lt_transitive(s[p as int].0, s[i].0, key@);
                        }
                    }
                }
                return p;
            }
            assert(self.pairs()[p as int].0 == self.entries@[p as int].key@);
            p = p + 1;
        }
        p
    }

    /// The proposal kept for `key`, if there is one.
    pub fn get(&self, key: &str) -> (r: Option<WhitelistVote>)
        requires
            self.wf(),
        ensures
            match r {
                Some(v) => self@.contains_key(key@) && self@[key@] == v@,
                None => !self@.contains_key(key@),
            },
    {
        let p = self.lower_bound(key);
        proof {
            lemma_ascending_distinct(self.pairs());
        }
        if p < self.entries.len() && same_text(self.entries[p].key.as_str(), key) {
            proof {
                assert(self.pairs()[p as int] == self.entries@[p as int].pair());
                lemma_as_map_at(self.pairs(), p as int);
            }
            Some(self.entries[p].vote.clone())
        } else {
            proof {
                self.lemma_absent(key@, p as int);
            }
            None
        }
    }

    /// A key that is not at its lower bound is nowhere.
    proof fn lemma_absent(&self, key: Seq<char>, p: int)
        requires
            self.wf(),
            0 <= p <= self.pairs().len(),
            forall|i: int| 0 <= i < p ==> key_lt(#[trigger] self.pairs()[i].0, key),
            forall|i: int| p <= i < self.pairs().len() ==> !key_lt(#[trigger] self.pairs()[i].0, key),
            p < self.pairs().len() ==> self.pairs()[p].0 != key,
        ensures
            !has_key(self.pairs(), key),
            p < self.pairs().len() ==> key_lt(key, self.pairs()[p].0),
            forall|i: int| p <= i < self.pairs().len() ==> key_lt(key, #[trigger] self.pairs()[i].0),
    {
        let s = self.pairs();
        if p < s.len() {
            lemma_key_lt_total(s[p].0, key);
        }
        assert forall|i: int| p <= i < s.len() implies key_lt(key, #[trigger] s[i].0) by {
            if i > p {
                assert(key_lt(s[p].0, s[i].0));
                lemma_key_lt_transitive(key, s[p].0, s[i].0);
            }
        }
        if has_key(s, key) {
            let i = choose|i: int| keeps(s, key, i);
            lemma_key_lt_total(key, key);
            if i < p {
                assert(key_lt(s[i].0, key));
            } else {
                assert(key_lt(key, s[i].0));
            }
        }
    }

    /// Keeps `vote` under `key`, in place of what was kept there.
    pub fn put(&mut self, key: String, vote: WhitelistVote)
        requires
            old(self).wf(),
        ensures
            final(self).wf(),
            final(self)@ == old(self)@.insert(key@, vote@),
    {
        let p = self.lower_bound(key.as_str());
        let ghost s = self.pairs();
        let ghost k = key@;
        let ghost v = vote@;
        proof {
            lemma_ascending_distinct(s);
        }
        if p < self.entries.len() && same_text(self.entries[p].key.as_str(), key.as_str()) {
            proof {
                assert(s[p as int] == self.entries@[p as int].pair());
                lemma_as_map_update(s, p as int, v);
            }
            self.entries.set(p, LedgerEntry { key, vote });
            proof {
                assert(self.pairs() =~= s.update(p as int, (k, v)));
                let t = self.pairs();
                assert forall|i: int, j: int| 0 <= i < j < t.len() implies key_lt((#[trigger] t[i]).0, (#[trigger] t[j]).0) by {
                    assert(t[i].0 == s[i].0);
                    assert(t[j].0 == s[j].0);
                    assert(key_lt(s[i].0, s[j].0));
                }
            }
        } else {
            proof {
                if p < s.len() {
                    assert(s[p as int] == self.entries@[p as int].pair());
                }
                self.lemma_absent(k, p as int);
                lemma_as_map_insert(s, p as int, k, v);
            }
            self.entries.insert(p, LedgerEntry { key, vote });
            proof {
                assert(self.pairs() =~= s.insert(p as int, (k, v)));
                let t = self.pairs();
                assert forall|i: int, j: int| 0 <= i < j < t.len() implies key_lt((#[trigger] t[i]).0, (#[trigger] t[j]).0) by {
                    let oi = if i < p { i } else { i - 1 };
                    let oj = if j < p { j } else { j - 1 };
                    if i == p {
                        assert(key_lt(k, s[oj].0));
                    } else if j == p {
                        assert(key_lt(s[oi].0, k));
                    } else {
                        assert(key_lt(s[oi].0, s[oj].0));
                    }
                }
            }
        }
    }

    /// Drops what is kept under `key`, if anything.
    pub fn delete(&mut self, key: &str)
        requires
            old(self).wf(),
        ensures
            final(self).wf(),
            final(self)@ == old(self)@.remove(key@),
    {
        let p = self.lower_bound(key);
        let ghost s = self.pairs();
        proof {
            lemma_ascending_distinct(s);
        }
        if p < self.entries.len() && same_text(self.entries[p].key.as_str(), key) {
            proof {
                assert(s[p as int] == self.entries@[p as int].pair());
                lemma_as_map_remove(s, p as int);
            }
            let _ = self.entries.remove(p);
            proof {
                assert(self.pairs() =~= s.remove(p as int));
                let t = self.pairs();
                assert forall|i: int, j: int| 0 <= i < j < t.len() implies key_lt((#[trigger] t[i]).0, (#[trigger] t[j]).0) by {
                    let oi = if i < p { i } else { i + 1 };
                    let oj = if j < p { j } else { j + 1 };
                    assert(key_lt(s[oi].0, s[oj].0));
                }
            }
        } else {
            proof {
                if p < s.len() {
                    assert(s[p as int] == self.entries@[p as int].pair());
                }
                self.lemma_absent(key@, p as int);
                assert(self@ =~= self@.remove(key@));
            }
        }
    }

    /// Every entry, in ascending order of the accounts.
    pub fn scan_all(&self) -> (r: Vec<LedgerEntry>)
        ensures
            entry_pairs(r@) == self.pairs(),
    {
        let mut out: Vec<LedgerEntry> = Vec::new();
        let mut i: usize = 0;
        while i < self.entries.len()
            invariant
                i <= self.entries.len(),
                out.len() == i,
                forall|j: int| 0 <= j < i ==> (#[trigger] out@[j]).pair() == self.entries@[j].pair(),
            decreases self.entries.len() - i,
        {
            let e = &self.entries[i];
            out.push(LedgerEntry { key: e.key.clone(), vote: e.vote.clone() });
            i = i + 1;
        }
        assert(entry_pairs(out@) =~= self.pairs());
        out
    }
}

impl Clone for VoteLedger {
    fn clone(&self) -> (r: VoteLedger)
        ensures
            r.pairs() == self.pairs(),
    {
        VoteLedger { entries: self.scan_all() }
    }
}

} // verus!
