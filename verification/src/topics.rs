//! The topic registry: the topics that announcements can be filed under,
//! each kept under its identifier.

use vstd::prelude::*;
use crate::assoc::{
    as_map, distinct_keys, has_key, keeps, lemma_as_map_at, lemma_as_map_empty, lemma_as_map_entry,
    lemma_as_map_insert, lemma_as_map_remove,
};
use crate::error::ContractError;
use crate::state::{Topic, TopicModel};
use crate::text::same_text;

verus! {

/// The topics as pairs of identifier and value.
pub open spec fn topic_pairs(v: Seq<Topic>) -> Seq<(Seq<char>, TopicModel)> {
    v.map_values(|t: Topic| (t@.identifier, t@))
}

/// The registered topics.
#[derive(Debug)]
pub struct TopicRegistry {
    topics: Vec<Topic>,
}

impl View for TopicRegistry {
    type V = Map<Seq<char>, TopicModel>;

    /// The registry as a map from identifier to topic.
    open spec fn view(&self) -> Map<Seq<char>, TopicModel> {
        as_map(self.pairs())
    }
}

impl TopicRegistry {
    /// The topics in the order they were registered.
    pub closed spec fn pairs(&self) -> Seq<(Seq<char>, TopicModel)> {
        topic_pairs(self.topics@)
    }

    /// No identifier is registered twice.
    pub open spec fn wf(&self) -> bool {
        distinct_keys(self.pairs())
    }

    /// Every topic is kept under its own identifier.
    pub proof fn lemma_keyed(&self)
        ensures
            forall|k: Seq<char>| self@.contains_key(k) ==> (#[trigger] self@[k]).identifier == k,
    {
        assert forall|k: Seq<char>| self@.contains_key(k) implies (#[trigger] self@[k]).identifier == k by {
            lemma_as_map_entry(self.pairs(), k);
        }
    }

    /// A registry without topics.
    pub fn new() -> (r: TopicRegistry)
        ensures
            r.wf(),
            r.pairs() == Seq::<(Seq<char>, TopicModel)>::empty(),
            r@ == Map::<Seq<char>, TopicModel>::empty(),
    {
        let r = TopicRegistry { topics: Vec::new() };
        proof {
            assert(r.pairs() =~= Seq::<(Seq<char>, TopicModel)>::empty());
            lemma_as_map_empty::<Seq<char>, TopicModel>();
        }
        r
    }

    /// Where the topic with `identifier` is kept.
    fn find(&self, identifier: &str) -> (r: Option<usize>)
        ensures
            match r {
                Some(p) => p < self.topics.len() && self.topics@[p as int]@.identifier == identifier@,
                None => !has_key(self.pairs(), identifier@),
            },
    {
        let mut i: usize = 0;
        while i < self.topics.len()
            invariant
                i <= self.topics.len(),
                forall|j: int| 0 <= j < i ==> self.topics@[j]@.identifier != identifier@,
            decreases self.topics.len() - i,
        {
            if same_text(self.topics[i].identifier.as_str(), identifier) {
                return Some(i);
            }
            i = i + 1;
        }
        proof {
            if has_key(self.pairs(), identifier@) {
                let j = choose|j: int| keeps(self.pairs(), identifier@, j);
                assert(self.topics@[j]@.identifier == identifier@);
            }
        }
        None
    }

    /// The topic registered under `identifier`, if there is one.
    pub fn get(&self, identifier: &str) -> (r: Option<Topic>)
        requires
            self.wf(),
        ensures
            match r {
                Some(t) => self@.contains_key(identifier@) && self@[identifier@] == t@,
                None => !self@.contains_key(identifier@),
            },
    {
        match self.find(identifier) {
            Some(p) => {
                proof {
                    assert(self.pairs()[p as int] == (identifier@, self.topics@[p as int]@));
                    lemma_as_map_at(self.pairs(), p as int);
                }
                Some(self.topics[p].clone())
            },
            None => None,
        }
    }

    /// Registers `topic` under its identifier, unless one is registered
    /// there already.
    pub fn register(&mut self, topic: Topic) -> (r: Result<(), ContractError>)
        requires
            old(self).wf(),
        ensures
            final(self).wf(),
            match r {
                Ok(()) => !old(self)@.contains_key(topic@.identifier) && final(self).pairs() == old(
                    self,
                ).pairs().push((topic@.identifier, topic@)) && final(self)@ == old(self)@.insert(
                    topic@.identifier,
                    topic@,
                ),
                Err(e) => e == ContractError::AlreadyExists && old(self)@.contains_key(topic@.identifier)
                    && final(self).pairs() == old(self).pairs(),
            },
    {
        let ghost s = self.pairs();
        match self.find(topic.identifier.as_str()) {
            Some(p) => {
                proof {
                    assert(s[p as int] == (topic@.identifier, self.topics@[p as int]@));
                    lemma_as_map_at(s, p as int);
                }
                Err(ContractError::AlreadyExists)
            },
            None => {
                proof {
                    lemma_as_map_insert(s, s.len() as int, topic@.identifier, topic@);
                }
                self.topics.push(topic);
                proof {
                    assert(self.pairs() =~= s.insert(s.len() as int, (topic@.identifier, topic@)));
                    assert(self.pairs() =~= s.push((topic@.identifier, topic@)));
                }
                Ok(())
            },
        }
    }

    /// Drops the topic registered under `identifier`, if there is one.
    pub fn remove(&mut self, identifier: &str)
        requires
            old(self).wf(),
        ensures
            final(self).wf(),
            final(self)@ == old(self)@.remove(identifier@),
    {
        let ghost s = self.pairs();
        match self.find(identifier) {
            Some(p) => {
                proof {
                    assert(s[p as int] == (identifier@, self.topics@[p as int]@));
                    lemma_as_map_remove(s, p as int);
                }
                let _ = self.topics.remove(p);
                proof {
                    assert(self.pairs() =~= s.remove(p as int));
                }
            },
            None => {
                assert(self@ =~= self@.remove(identifier@));
            },
        }
    }

    /// Every registered topic, in the order of registration.
    pub fn list(&self) -> (r: Vec<Topic>)
        ensures
            topic_pairs(r@) == self.pairs(),
    {
        let mut out: Vec<Topic> = Vec::new();
        let mut i: usize = 0;
        while i < self.topics.len()
            invariant
                i <= self.topics.len(),
                out.len() == i,
                forall|j: int| 0 <= j < i ==> (#[trigger] out@[j])@ == self.topics@[j]@,
            decreases self.topics.len() - i,
        {
            out.push(self.topics[i].clone());
            i = i + 1;
        }
        assert(topic_pairs(out@) =~= self.pairs());
        out
    }
}

} // verus!
