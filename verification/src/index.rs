//! A secondary ordering of the announcements: entries that name an
//! announcement by the time it was made at and its id, grouped by an
//! author or a topic, and kept in ascending order of time and id.

use vstd::prelude::*;
use crate::text::same_text;

verus! {

/// The value of an index entry: the group it is filed under, the time the
/// announcement was made at, in nanoseconds, and the announcement's id.
pub struct IndexKey {
    pub group: Seq<char>,
    pub time: u64,
    pub id: u64,
}

/// The order of the index: by time, then by id.
pub open spec fn before(a: IndexKey, b: IndexKey) -> bool {
    a.time < b.time || (a.time == b.time && a.id < b.id)
}

/// Entries grow strictly from each to the next.
pub open spec fn rising(s: Seq<IndexKey>) -> bool {
    forall|i: int, j: int| 0 <= i < j < s.len() ==> before(#[trigger] s[i], #[trigger] s[j])
}

/// Entries fall strictly from each to the next.
pub open spec fn falling(s: Seq<IndexKey>) -> bool {
    forall|i: int, j: int| 0 <= i < j < s.len() ==> before(#[trigger] s[j], #[trigger] s[i])
}

/// Whether an entry names the announcement made at `time` with `id`.
pub open spec fn names_record(k: IndexKey, time: u64, id: u64) -> bool {
    k.time == time && k.id == id
}

/// Whether an entry is asked for: in the group, if one is given, and made
/// at `since` or later, if that is given.
pub open spec fn wanted(k: IndexKey, group: Option<Seq<char>>, since: Option<u64>) -> bool {
    &&& group matches Some(g) ==> k.group == g
    &&& since matches Some(s) ==> k.time >= s
}

/// One entry of an index.
#[derive(Debug, PartialEq, Eq)]
pub struct IndexEntry {
    pub group: String,
    pub time: u64,
    pub id: u64,
}

impl View for IndexEntry {
    type V = IndexKey;

    open spec fn view(&self) -> IndexKey {
        IndexKey { group: self.group@, time: self.time, id: self.id }
    }
}

impl Clone for IndexEntry {
    fn clone(&self) -> (r: IndexEntry)
        ensures
            r@ == self@,
    {
        IndexEntry { group: self.group.clone(), time: self.time, id: self.id }
    }
}

/// The values of a list of entries.
pub open spec fn entry_keys(v: Seq<IndexEntry>) -> Seq<IndexKey> {
    v.map_values(|e: IndexEntry| e@)
}

/// The value of an optional piece of text.
pub open spec fn text_model(t: Option<&str>) -> Option<Seq<char>> {
    match t {
        Some(t) => Some(t@),
        None => None,
    }
}

/// One ordering of the announcements.
#[derive(Debug)]
pub struct Index {
    entries: Vec<IndexEntry>,
}

impl Index {
    /// The entries in the order the index keeps them.
    pub closed spec fn keys(&self) -> Seq<IndexKey> {
        entry_keys(self.entries@)
    }

    /// The entries are in strictly ascending order of time and id.
    pub open spec fn wf(&self) -> bool {
        rising(self.keys())
    }

    /// An ordering without entries.
    pub fn new() -> (r: Index)
        ensures
            r.wf(),
            r.keys() == Seq::<IndexKey>::empty(),
    {
        let r = Index { entries: Vec::new() };
        assert(r.keys() =~= Seq::<IndexKey>::empty());
        r
    }

    /// How many entries the ordering holds.
    pub fn len(&self) -> (n: usize)
        ensures
            n == self.keys().len(),
    {
        self.entries.len()
    }

    /// The first place whose entry does not come before `(time, id)`.
    fn lower_bound(&self, time: u64, id: u64) -> (p: usize)
        requires
            self.wf(),
        ensures
            p <= self.keys().len(),
            forall|i: int| 0 <= i < p ==> {
                let k = #[trigger] self.keys()[i];
                k.time < time || (k.time == time && k.id < id)
            },
            forall|i: int| p <= i < self.keys().len() ==> {
                let k = #[trigger] self.keys()[i];
                !(k.time < time || (k.time == time && k.id < id))
            },
    {
        let mut p: usize = 0;
        while p < self.entries.len()
            invariant
                p <= self.entries.len(),
                self.wf(),
                forall|i: int| 0 <= i < p ==> {
                    let k = #[trigger] self.keys()[i];
                    k.time < time || (k.time == time && k.id < id)
                },
            decreases self.entries.len() - p,
        {
            let e = &self.entries[p];
            assert(self.keys()[p as int] == e@);
            if !(e.time < time || (e.time == time && e.id < id)) {
                proof {
                    let s = self.keys();
                    assert forall|i: int| p <= i < s.len() implies {
                        let k = #[trigger] s[i];
                        !(k.time < time || (k.time == time && k.id < id))
                    } by {
                        if i > p {
                            assert(before(s[p as int], s[i]));
                        }
                    }
                }
                return p;
            }
            p = p + 1;
        }
        p
    }

    /// Files the announcement made at `time` with `id` under `group`, in
    /// place of any entry that names the same announcement.
    pub fn insert(&mut self, group: String, time: u64, id: u64)
        requires
            old(self).wf(),
        ensures
            final(self).wf(),
            forall|k: IndexKey| #[trigger] final(self).keys().contains(k) <==> (k == (IndexKey { group: group@, time, id })
                || (old(self).keys().contains(k) && !names_record(k, time, id))),
    {
        let p = self.lower_bound(time, id);
        let ghost s = self.keys();
        let ghost key = IndexKey { group: group@, time, id };
        if p < self.entries.len() && self.entries[p].time == time && self.entries[p].id == id {
            assert(s[p as int] == self.entries@[p as int]@);
            self.entries.set(p, IndexEntry { group, time, id });
            proof {
                let t = self.keys();
                assert(t =~= s.update(p as int, key));
                assert forall|i: int, j: int| 0 <= i < j < t.len() implies before(#[trigger] t[i], #[trigger] t[j]) by {
                    assert(before(s[i], s[j]));
                }
                assert forall|k: IndexKey| #[trigger] t.contains(k) <==> (k == key || (s.contains(k) && !names_record(k, time, id))) by {
                    if t.contains(k) {
                        let i = choose|i: int| 0 <= i < t.len() && t[i] == k;
                        if i != p {
                            assert(s[i] == k);
                            if i < p {
                                assert(before(s[i], s[p as int]));
                            } else {
                                assert(before(s[p as int], s[i]));
                            }
                        }
                    }
                    if s.contains(k) && !names_record(k, time, id) {
                        let i = choose|i: int| 0 <= i < s.len() && s[i] == k;
                        assert(t[i] == k);
                    }
                    if k == key {
                        assert(t[p as int] == k);
                    }
                }
            }
        } else {
            proof {
                if p < s.len() {
                    assert(s[p as int] == self.entries@[p as int]@);
                }
            }
            self.entries.insert(p, IndexEntry { group, time, id });
            proof {
                let t = self.keys();
                assert(t =~= s.insert(p as int, key));
                assert forall|i: int, j: int| 0 <= i < j < t.len() implies before(#[trigger] t[i], #[trigger] t[j]) by {
                    let oi = if i < p { i } else { i - 1 };
                    let oj = if j < p { j } else { j - 1 };
                    if i == p {
                        assert(s[oj] == t[j]);
                        if oj > p {
                            assert(before(s[p as int], s[oj]));
                        }
                    } else if j == p {
                        assert(s[oi] == t[i]);
                    } else {
                        assert(before(s[oi], s[oj]));
                    }
                }
                assert forall|k: IndexKey| #[trigger] t.contains(k) <==> (k == key || (s.contains(k) && !names_record(k, time, id))) by {
                    if t.contains(k) {
                        let i = choose|i: int| 0 <= i < t.len() && t[i] == k;
                        if i != p {
                            let oi = if i < p { i } else { i - 1 };
                            assert(s[oi] == k);
                            if oi > p {
                                assert(before(s[p as int], s[oi]));
                            }
                        }
                    }
                    if s.contains(k) && !names_record(k, time, id) {
                        let i = choose|i: int| 0 <= i < s.len() && s[i] == k;
                        let ni = if i < p { i } else { i + 1 };
                        assert(t[ni] == k);
                    }
                    if k == key {
                        assert(t[p as int] == k);
                    }
                }
            }
        }
    }

    /// Drops the entry that names the announcement made at `time` with
    /// `id`, if there is one.
    pub fn remove(&mut self, time: u64, id: u64)
        requires
            old(self).wf(),
        ensures
            final(self).wf(),
            forall|k: IndexKey| #[trigger] final(self).keys().contains(k) <==> (old(self).keys().contains(k) && !names_record(k, time, id)),
    {
        let p = self.lower_bound(time, id);
        let ghost s = self.keys();
        if p < self.entries.len() && self.entries[p].time == time && self.entries[p].id == id {
            assert(s[p as int] == self.entries@[p as int]@);
            let _ = self.entries.remove(p);
            proof {
                let t = self.keys();
                assert(t =~= s.remove(p as int));
                assert forall|i: int, j: int| 0 <= i < j < t.len() implies before(#[trigger] t[i], #[trigger] t[j]) by {
                    let oi = if i < p { i } else { i + 1 };
                    let oj = if j < p { j } else { j + 1 };
                    assert(before(s[oi], s[oj]));
                }
                assert forall|k: IndexKey| #[trigger] t.contains(k) <==> (s.contains(k) && !names_record(k, time, id)) by {
                    if t.contains(k) {
                        let i = choose|i: int| 0 <= i < t.len() && t[i] == k;
                        let oi = if i < p { i } else { i + 1 };
                        assert(s[oi] == k);
                        if oi < p {
                            assert(before(s[oi], s[p as int]));
                        } else {
                            assert(before(s[p as int], s[oi]));
                        }
                    }
                    if s.contains(k) && !names_record(k, time, id) {
                        let i = choose|i: int| 0 <= i < s.len() && s[i] == k;
                        let ni = if i < p { i } else { i - 1 };
                        assert(t[ni] == k);
                    }
                }
            }
        } else {
            proof {
                if p < s.len() {
                    assert(s[p as int] == self.entries@[p as int]@);
                }
                assert forall|k: IndexKey| s.contains(k) implies !names_record(k, time, id) by {
                    let i = choose|i: int| 0 <= i < s.len() && s[i] == k;
                    if i > p {
                        assert(before(s[p as int], s[i]));
                    }
                }
            }
        }
    }

    /// The entries that are asked for, newest first.
    pub fn scan_descending(&self, group: Option<&str>, since: Option<u64>) -> (r: Vec<IndexEntry>)
        requires
            self.wf(),
        ensures
            falling(entry_keys(r@)),
            forall|k: IndexKey| #[trigger] entry_keys(r@).contains(k) <==> (self.keys().contains(k) && wanted(k, text_model(group), since)),
    {
        let mut out: Vec<IndexEntry> = Vec::new();
        let mut i: usize = self.entries.len();
        let ghost s = self.keys();
        let ghost g = text_model(group);
        while i > 0
            invariant
                i <= self.entries.len(),
                self.wf(),
                s == self.keys(),
                g == text_model(group),
                falling(entry_keys(out@)),
                forall|j: int| 0 <= j < out.len() ==> exists|m: int| i <= m < s.len() && s[m] == #[trigger] entry_keys(out@)[j],
                forall|j: int| 0 <= j < out.len() ==> wanted(#[trigger] entry_keys(out@)[j], g, since),
                forall|m: int| i <= m < s.len() && wanted(#[trigger] s[m], g, since) ==> entry_keys(out@).contains(s[m]),
            decreases i,
        {
            i = i - 1;
            let e = &self.entries[i];
            assert(s[i as int] == e@);
            let in_group = match group {
                Some(g) => same_text(e.group.as_str(), g),
                None => true,
            };
            let recent = match since {
                Some(t) => e.time >= t,
                None => true,
            };
            let ghost prev = entry_keys(out@);
            if in_group && recent {
                out.push(e.clone());
                proof {
                    let cur = entry_keys(out@);
                    assert(cur =~= prev.push(e@));
                    assert forall|a: int, b: int| 0 <= a < b < cur.len() implies before(#[trigger] cur[b], #[trigger] cur[a]) by {
                        if b == prev.len() {
                            let m = choose|m: int| i + 1 <= m < s.len() && s[m] == prev[a];
                            assert(before(s[i as int], s[m]));
                        } else {
                            assert(before(prev[b], prev[a]));
                        }
                    }
                    assert forall|j: int| 0 <= j < cur.len() implies exists|m: int| i <= m < s.len() && s[m] == #[trigger] cur[j] by {
                        if j == prev.len() {
                            assert(s[i as int] == cur[j]);
                        } else {
                            let m = choose|m: int| i + 1 <= m < s.len() && s[m] == prev[j];
                            assert(s[m] == cur[j]);
                        }
                    }
                    assert forall|m: int| i <= m < s.len() && wanted(#[trigger] s[m], g, since) implies cur.contains(s[m]) by {
                        if m == i {
                            assert(cur[prev.len() as int] == s[m]);
                        } else {
                            assert(prev.contains(s[m]));
                            let j = choose|j: int| 0 <= j < prev.len() && prev[j] == s[m];
                            assert(cur[j] == s[m]);
                        }
                    }
                }
            } else {
                proof {
                    assert forall|j: int| 0 <= j < prev.len() implies exists|m: int| i <= m < s.len() && s[m] == #[trigger] prev[j] by {
                        let m = choose|m: int| i + 1 <= m < s.len() && s[m] == prev[j];
                        assert(s[m] == prev[j]);
                    }
                }
            }
        }
        proof {
            let cur = entry_keys(out@);
            assert forall|k: IndexKey| #[trigger] cur.contains(k) <==> (s.contains(k) && wanted(k, g, since)) by {
                if cur.contains(k) {
                    let j = choose|j: int| 0 <= j < cur.len() && cur[j] == k;
                    let m = choose|m: int| 0 <= m < s.len() && s[m] == cur[j];
                    assert(s[m] == k);
                }
                if s.contains(k) && wanted(k, g, since) {
                    let m = choose|m: int| 0 <= m < s.len() && s[m] == k;
                    assert(wanted(s[m], g, since));
                }
            }
        }
        out
    }
}

} // verus!
