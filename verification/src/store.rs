//! The announcement store: the records by id, and three secondary
//! orderings of them, by author, by topic and by time.

use vstd::prelude::*;
use crate::assoc::{
    as_map, distinct_keys, has_key, keeps, lemma_as_map_at, lemma_as_map_empty, lemma_as_map_entry,
    lemma_as_map_insert, lemma_as_map_remove, lemma_as_map_update,
};
use crate::index::{before, entry_keys, names_record, text_model, wanted, Index, IndexKey};
use crate::state::{Announcement, AnnouncementModel};

verus! {

/// The three orderings.
#[derive(Clone, Copy, Debug, PartialEq, Eq, Structural)]
pub enum IndexKind {
    Author,
    Time,
    Topic,
}

/// The entry that stands for an announcement in the ordering of `kind`.
pub open spec fn index_key(kind: IndexKind, a: AnnouncementModel) -> IndexKey {
    IndexKey {
        group: match kind {
            IndexKind::Author => a.author,
            IndexKind::Time => Seq::empty(),
            IndexKind::Topic => a.topic_key(),
        },
        time: a.time,
        id: a.id,
    }
}

/// The ordering holds one entry for each record, and no other.
pub open spec fn mirrors(keys: Seq<IndexKey>, records: Map<u64, AnnouncementModel>, kind: IndexKind) -> bool {
    forall|k: IndexKey| #[trigger] keys.contains(k) <==> (records.contains_key(k.id) && index_key(kind, records[k.id]) == k)
}

/// `a` is newer than `b`: made at a later time, or at the same time with
/// a greater id.
pub open spec fn newer(a: AnnouncementModel, b: AnnouncementModel) -> bool {
    b.time < a.time || (b.time == a.time && b.id < a.id)
}

/// Each announcement is newer than all that follow it.
pub open spec fn newest_first(s: Seq<AnnouncementModel>) -> bool {
    forall|i: int, j: int| 0 <= i < j < s.len() ==> newer(#[trigger] s[i], #[trigger] s[j])
}

/// The values of a list of announcements.
pub open spec fn listing(v: Seq<Announcement>) -> Seq<AnnouncementModel> {
    v.map_values(|a: Announcement| a@)
}

/// The records as pairs of id and value.
pub open spec fn record_pairs(v: Seq<Announcement>) -> Seq<(u64, AnnouncementModel)> {
    v.map_values(|a: Announcement| (a.id, a@))
}

/// Whether an announcement is asked for by a query on the ordering of
/// `kind`: in the group, if one is given, and made at `since` or later.
pub open spec fn selected(a: AnnouncementModel, kind: IndexKind, group: Option<Seq<char>>, since: Option<u64>) -> bool {
    wanted(index_key(kind, a), group, since)
}

/// `found` holds exactly the records of `records` that a query asks for,
/// newest first.
pub open spec fn answers(
    found: Seq<AnnouncementModel>,
    records: Map<u64, AnnouncementModel>,
    kind: IndexKind,
    group: Option<Seq<char>>,
    since: Option<u64>,
) -> bool {
    &&& newest_first(found)
    &&& forall|a: AnnouncementModel| #[trigger] found.contains(a) <==> (records.contains_key(a.id) && records[a.id] == a
        && selected(a, kind, group, since))
}

/// The secondary orderings of the announcements.
#[derive(Debug)]
pub struct AnnouncementIndexes {
    pub author: Index,
    pub time: Index,
    pub topic: Index,
}

/// The announcements by id, with their three orderings.
#[derive(Debug)]
pub struct AnnouncementStore {
    records: Vec<Announcement>,
    idx: AnnouncementIndexes,
}

impl View for AnnouncementStore {
    type V = Map<u64, AnnouncementModel>;

    /// The store as a map from id to announcement.
    open spec fn view(&self) -> Map<u64, AnnouncementModel> {
        as_map(self.pairs())
    }
}

/// An empty announcement store: no record is kept, and none of the three
/// orderings holds an entry.
pub fn announcements() -> (r: AnnouncementStore)
    ensures
        r.wf(),
        r@ == Map::<u64, AnnouncementModel>::empty(),
        r.pairs() == Seq::<(u64, AnnouncementModel)>::empty(),
        r.index_keys(IndexKind::Author) == Seq::<IndexKey>::empty(),
        r.index_keys(IndexKind::Time) == Seq::<IndexKey>::empty(),
        r.index_keys(IndexKind::Topic) == Seq::<IndexKey>::empty(),
{
    let r = AnnouncementStore {
        records: Vec::new(),
        idx: AnnouncementIndexes { author: Index::new(), time: Index::new(), topic: Index::new() },
    };
    proof {
        assert(r.pairs() =~= Seq::<(u64, AnnouncementModel)>::empty());
        lemma_as_map_empty::<u64, AnnouncementModel>();
    }
    r
}

impl AnnouncementStore {
    /// The records in the order the store keeps them.
    pub closed spec fn pairs(&self) -> Seq<(u64, AnnouncementModel)> {
        record_pairs(self.records@)
    }

    /// The entries of the ordering of `kind`.
    pub closed spec fn index_keys(&self, kind: IndexKind) -> Seq<IndexKey> {
        match kind {
            IndexKind::Author => self.idx.author.keys(),
            IndexKind::Time => self.idx.time.keys(),
            IndexKind::Topic => self.idx.topic.keys(),
        }
    }

    /// No id is kept twice, and each ordering is in order and holds one
    /// entry for each record.
    pub closed spec fn wf(&self) -> bool {
        &&& distinct_keys(self.pairs())
        &&& self.idx.author.wf()
        &&& self.idx.time.wf()
        &&& self.idx.topic.wf()
        &&& mirrors(self.idx.author.keys(), self@, IndexKind::Author)
        &&& mirrors(self.idx.time.keys(), self@, IndexKind::Time)
        &&& mirrors(self.idx.topic.keys(), self@, IndexKind::Topic)
    }

    /// Every ordering of a well-formed store holds one entry for each
    /// record and no other, and every record is kept under its own id.
    pub proof fn lemma_indexes(&self, kind: IndexKind)
        requires
            self.wf(),
        ensures
            mirrors(self.index_keys(kind), self@, kind),
            forall|id: u64| self@.contains_key(id) ==> (#[trigger] self@[id]).id == id,
    {
        assert forall|id: u64| self@.contains_key(id) implies (#[trigger] self@[id]).id == id by {
            lemma_as_map_entry(self.pairs(), id);
        }
    }

    /// How many announcements the store keeps.
    pub fn len(&self) -> (n: usize)
        ensures
            n == self.pairs().len(),
    {
        self.records.len()
    }

    /// The orderings, to read.
    pub fn indexes(&self) -> (r: &AnnouncementIndexes)
        ensures
            r.author.keys() == self.index_keys(IndexKind::Author),
            r.time.keys() == self.index_keys(IndexKind::Time),
            r.topic.keys() == self.index_keys(IndexKind::Topic),
    {
        &self.idx
    }

    /// Where the record with `id` is kept.
    fn find(&self, id: u64) -> (r: Option<usize>)
        ensures
            match r {
                Some(p) => p < self.records.len() && self.records@[p as int].id == id,
                None => !has_key(self.pairs(), id),
            },
    {
        let mut i: usize = 0;
        while i < self.records.len()
            invariant
                i <= self.records.len(),
                forall|j: int| 0 <= j < i ==> self.records@[j].id != id,
            decreases self.records.len() - i,
        {
            if self.records[i].id == id {
                return Some(i);
            }
            i = i + 1;
        }
        proof {
            if has_key(self.pairs(), id) {
                let j = choose|j: int| keeps(self.pairs(), id, j);
                assert(self.records@[j].id == id);
            }
        }
        None
    }

    /// The announcement with `id`, if it is kept.
    pub fn may_load(&self, id: u64) -> (r: Option<Announcement>)
        requires
            self.wf(),
        ensures
            match r {
                Some(a) => self@.contains_key(id) && self@[id] == a@,
                None => !self@.contains_key(id),
            },
    {
        match self.find(id) {
            Some(p) => {
                proof {
                    assert(self.pairs()[p as int] == (id, self.records@[p as int]@));
                    lemma_as_map_at(self.pairs(), p as int);
                }
                Some(self.records[p].clone())
            },
            None => None,
        }
    }

    /// Keeps `a` under its id, in place of what was kept there, and brings
    /// the three orderings up to date.
    pub fn save(&mut self, a: Announcement)
        requires
            old(self).wf(),
        ensures
            final(self).wf(),
            final(self)@ == old(self)@.insert(a.id, a@),
    {
        let ghost before = self@;
        let ghost s = self.pairs();
        let ghost ka = self.idx.author.keys();
        let ghost kt = self.idx.time.keys();
        let ghost kp = self.idx.topic.keys();
        let id = a.id;
        let time = a.time.nanos;
        let topic = match &a.topic {
            Some(t) => t.identifier.clone(),
            None => String::new(),
        };
        proof {
            assert forall|x: u64| before.contains_key(x) implies (#[trigger] before[x]).id == x by {
                lemma_as_map_entry(s, x);
            }
        }
        match self.find(id) {
            Some(p) => {
                let old_time = self.records[p].time.nanos;
                proof {
                    assert(s[p as int] == (id, self.records@[p as int]@));
                    lemma_as_map_at(s, p as int);
                    lemma_as_map_update(s, p as int, a@);
                }
                self.idx.author.remove(old_time, id);
                self.idx.time.remove(old_time, id);
                self.idx.topic.remove(old_time, id);
                let ghost ka1 = self.idx.author.keys();
                let ghost kt1 = self.idx.time.keys();
                let ghost kp1 = self.idx.topic.keys();
                self.idx.author.insert(a.author.clone(), time, id);
                self.idx.time.insert(String::new(), time, id);
                self.idx.topic.insert(topic, time, id);
                proof {
                    lemma_mirrors_replaced(ka, ka1, self.idx.author.keys(), before, a@, IndexKind::Author);
                    lemma_mirrors_replaced(kt, kt1, self.idx.time.keys(), before, a@, IndexKind::Time);
                    lemma_mirrors_replaced(kp, kp1, self.idx.topic.keys(), before, a@, IndexKind::Topic);
                }
                self.records.set(p, a);
                proof {
                    assert(self.pairs() =~= s.update(p as int, (id, a@)));
                }
            },
            None => {
                proof {
                    lemma_as_map_insert(s, s.len() as int, id, a@);
                }
                self.idx.author.insert(a.author.clone(), time, id);
                self.idx.time.insert(String::new(), time, id);
                self.idx.topic.insert(topic, time, id);
                proof {
                    lemma_mirrors_replaced(ka, ka, self.idx.author.keys(), before, a@, IndexKind::Author);
                    lemma_mirrors_replaced(kt, kt, self.idx.time.keys(), before, a@, IndexKind::Time);
                    lemma_mirrors_replaced(kp, kp, self.idx.topic.keys(), before, a@, IndexKind::Topic);
                }
                self.records.push(a);
                proof {
                    assert(self.pairs() =~= s.insert(s.len() as int, (id, a@)));
                }
            },
        }
    }

    /// Drops the announcement with `id` from the records and from the three
    /// orderings; nothing changes where none is kept.
    pub fn remove(&mut self, id: u64)
        requires
            old(self).wf(),
        ensures
            final(self).wf(),
            final(self)@ == old(self)@.remove(id),
    {
        let ghost before = self@;
        let ghost s = self.pairs();
        let ghost ka = self.idx.author.keys();
        let ghost kt = self.idx.time.keys();
        let ghost kp = self.idx.topic.keys();
        match self.find(id) {
            Some(p) => {
                let time = self.records[p].time.nanos;
                proof {
                    assert(s[p as int] == (id, self.records@[p as int]@));
                    lemma_as_map_at(s, p as int);
                    lemma_as_map_remove(s, p as int);
                }
                self.idx.author.remove(time, id);
                self.idx.time.remove(time, id);
                self.idx.topic.remove(time, id);
                let _ = self.records.remove(p);
                proof {
                    assert(self.pairs() =~= s.remove(p as int));
                    assert forall|x: u64| before.contains_key(x) implies (#[trigger] before[x]).id == x by {
                        lemma_as_map_entry(s, x);
                    }
                    lemma_mirrors_removed(ka, self.idx.author.keys(), before, id, IndexKind::Author);
                    lemma_mirrors_removed(kt, self.idx.time.keys(), before, id, IndexKind::Time);
                    lemma_mirrors_removed(kp, self.idx.topic.keys(), before, id, IndexKind::Topic);
                }
            },
            None => {
                assert(before =~= before.remove(id));
            },
        }
    }

    /// The announcements that a query on the ordering of `kind` asks for,
    /// newest first.
    fn collect(&self, kind: IndexKind, group: Option<&str>, since: Option<u64>) -> (r: Vec<Announcement>)
        requires
            self.wf(),
        ensures
            answers(listing(r@), self@, kind, text_model(group), since),
    {
        let entries = match kind {
            IndexKind::Author => self.idx.author.scan_descending(group, since),
            IndexKind::Time => self.idx.time.scan_descending(group, since),
            IndexKind::Topic => self.idx.topic.scan_descending(group, since),
        };
        let ghost ks = entry_keys(entries@);
        let ghost all = self.index_keys(kind);
        let ghost g = text_model(group);
        let ghost records = self@;
        proof {
            self.lemma_indexes(kind);
        }
        let mut out: Vec<Announcement> = Vec::new();
        let mut i: usize = 0;
        while i < entries.len()
            invariant
                i <= entries.len(),
                self.wf(),
                records == self@,
                ks == entry_keys(entries@),
                out.len() == i,
                mirrors(all, records, kind),
                forall|k: IndexKey| #[trigger] ks.contains(k) <==> (all.contains(k) && wanted(k, g, since)),
                forall|j: int| 0 <= j < i ==> {
                    let a = #[trigger] listing(out@)[j];
                    records.contains_key(a.id) && records[a.id] == a && index_key(kind, a) == ks[j]
                },
            decreases entries.len() - i,
        {
            let e = &entries[i];
            proof {
                assert(ks[i as int] == e@);
                assert(ks.contains(e@));
                assert(all.contains(e@));
            }
            match self.find(e.id) {
                Some(p) => {
                    proof {
                        assert(self.pairs()[p as int] == (e.id, self.records@[p as int]@));
                        lemma_as_map_at(self.pairs(), p as int);
                    }
                    let ghost prev = listing(out@);
                    out.push(self.records[p].clone());
                    proof {
                        assert(listing(out@) =~= prev.push(self.records@[p as int]@));
                    }
                },
                None => {
                    proof {
                        assert(false);
                    }
                },
            }
            i = i + 1;
        }
        proof {
            let found = listing(out@);
            assert forall|a: int, b: int| 0 <= a < b < found.len() implies newer(#[trigger] found[a], #[trigger] found[b]) by {
                assert(before(ks[b], ks[a]));
            }
            assert forall|a: AnnouncementModel| #[trigger] found.contains(a) <==> (records.contains_key(a.id) && records[a.id] == a
                && selected(a, kind, g, since)) by {
                if found.contains(a) {
                    let j = choose|j: int| 0 <= j < found.len() && found[j] == a;
                    assert(ks.contains(ks[j]));
                }
                if records.contains_key(a.id) && records[a.id] == a && selected(a, kind, g, since) {
                    let k = index_key(kind, a);
                    assert(all.contains(k));
                    assert(ks.contains(k));
                    let j = choose|j: int| 0 <= j < ks.len() && ks[j] == k;
                    assert(found[j].id == a.id);
                    assert(found[j] == a);
                }
            }
        }
        out
    }

    /// The announcements by `author`, newest first; with `since`, only those
    /// made at that time, in nanoseconds, or later.
    pub fn by_author(&self, author: &str, since: Option<u64>) -> (r: Vec<Announcement>)
        requires
            self.wf(),
        ensures
            answers(listing(r@), self@, IndexKind::Author, Some(author@), since),
    {
        self.collect(IndexKind::Author, Some(author), since)
    }

    /// The announcements filed under `topic`, newest first; the untagged
    /// ones are filed under the empty identifier.
    pub fn by_topic(&self, topic: &str, since: Option<u64>) -> (r: Vec<Announcement>)
        requires
            self.wf(),
        ensures
            answers(listing(r@), self@, IndexKind::Topic, Some(topic@), since),
    {
        self.collect(IndexKind::Topic, Some(topic), since)
    }

    /// All announcements, newest first.
    pub fn by_time(&self, since: Option<u64>) -> (r: Vec<Announcement>)
        requires
            self.wf(),
        ensures
            answers(listing(r@), self@, IndexKind::Time, None, since),
    {
        self.collect(IndexKind::Time, None, since)
    }
}

/// An ordering that mirrored the records still does once the entry of a
/// replaced record, if there was one, has left it and the entry of the saved
/// one has come in.
proof fn lemma_mirrors_replaced(
    k0: Seq<IndexKey>,
    k1: Seq<IndexKey>,
    k2: Seq<IndexKey>,
    records: Map<u64, AnnouncementModel>,
    a: AnnouncementModel,
    kind: IndexKind,
)
    requires
        mirrors(k0, records, kind),
        forall|x: u64| records.contains_key(x) ==> (#[trigger] records[x]).id == x,
        records.contains_key(a.id) ==> forall|k: IndexKey| #[trigger] k1.contains(k) <==> (k0.contains(k) && !names_record(k, records[a.id].time, a.id)),
        !records.contains_key(a.id) ==> k1 == k0,
        forall|k: IndexKey| #[trigger] k2.contains(k) <==> (k == index_key(kind, a) || (k1.contains(k) && !names_record(k, a.time, a.id))),
    ensures
        mirrors(k2, records.insert(a.id, a), kind),
{
    let after = records.insert(a.id, a);
    assert forall|k: IndexKey| #[trigger] k2.contains(k) <==> (after.contains_key(k.id) && index_key(kind, after[k.id]) == k) by {
        if records.contains_key(a.id) {
            assert(k1.contains(k) <==> (k0.contains(k) && !names_record(k, records[a.id].time, a.id)));
        }
        assert(k0.contains(k) <==> (records.contains_key(k.id) && index_key(kind, records[k.id]) == k));
    }
}

/// An ordering that mirrored the records still does once the entry of a
/// removed record has left it.
proof fn lemma_mirrors_removed(
    k0: Seq<IndexKey>,
    k1: Seq<IndexKey>,
    records: Map<u64, AnnouncementModel>,
    id: u64,
    kind: IndexKind,
)
    requires
        mirrors(k0, records, kind),
        forall|x: u64| records.contains_key(x) ==> (#[trigger] records[x]).id == x,
        records.contains_key(id),
        forall|k: IndexKey| #[trigger] k1.contains(k) <==> (k0.contains(k) && !names_record(k, records[id].time, id)),
    ensures
        mirrors(k1, records.remove(id), kind),
{
    let after = records.remove(id);
    assert forall|k: IndexKey| #[trigger] k1.contains(k) <==> (after.contains_key(k.id) && index_key(kind, after[k.id]) == k) by {
        assert(k0.contains(k) <==> (records.contains_key(k.id) && index_key(kind, records[k.id]) == k));
    }
}

} // verus!
