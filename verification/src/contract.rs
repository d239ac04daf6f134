//! The registry itself and the commands that change it.

use vstd::prelude::*;
use crate::assoc::{as_map, distinct_keys, lemma_as_map_at, lemma_as_map_entry, position};
use crate::batch::{
    lemma_run_stuck, lemma_sets_deadline_part, lemma_voted_distinct, open_votes, process_target, registry_of,
    run, sets_deadline, sweep_expired, BatchCount, Progress, Registry,
};
use crate::error::ContractError;
use crate::ledger::{entry_pairs, lemma_ascending_distinct, VoteLedger};
use crate::migrate::{ensure_from_older_version, migrated, ContractVersion};
use crate::msg::{Env, ExecuteMsg, InstantiateMsg, MessageInfo, MigrateMsg, Response};
use crate::precedence::Parts;
use crate::quorum::VOTE_LIFETIME_NANOS;
use crate::rules::{
    add_topic, announce, announce_takes_id, counter, dispatch, in_use, opt_text, remove_topic, retract,
    sound, vote, vote_sets_deadline, within_limits, Attributes, Outcome, StateModel, VersionModel,
};
use crate::state::{clone_names, contains_name, names, Announcement, Topic, TopicModel, WhitelistAction};
use crate::store::{announcements, answers, listing, AnnouncementStore, IndexKind};
use crate::text::{join, to_decimal};
use crate::topics::TopicRegistry;

verus! {

/// The name this registry goes by.
pub const CONTRACT_NAME: &'static str = "strathcole:announcer";

/// The version of this registry.
pub const CONTRACT_VERSION: &'static str = "0.1.0";

/// Everything the registry keeps.
#[derive(Debug)]
pub struct State {
    whitelist: Vec<String>,
    votes: VoteLedger,
    topics: TopicRegistry,
    announcements: AnnouncementStore,
    next_id: Option<u64>,
    version: Option<ContractVersion>,
}

/// The value of an optional name and version.
pub open spec fn version_model(v: Option<ContractVersion>) -> Option<VersionModel> {
    match v {
        Some(v) => Some(v@),
        None => None,
    }
}

impl View for State {
    type V = StateModel;

    closed spec fn view(&self) -> StateModel {
        StateModel {
            whitelist: names(self.whitelist@),
            votes: self.votes@,
            topics: self.topics@,
            announcements: self.announcements@,
            next_id: self.next_id,
            version: version_model(self.version),
        }
    }
}

/// What a command answers, as the rules speak of it.
pub open spec fn reply(r: Result<Response, ContractError>) -> Result<Attributes, ContractError> {
    match r {
        Ok(x) => Ok(x@),
        Err(e) => Err(e),
    }
}

impl State {
    /// The ledger, the topic registry and the announcement store are each
    /// in order, and the value of the registry is sound.
    pub closed spec fn wf(&self) -> bool {
        &&& self.votes.wf()
        &&& self.topics.wf()
        &&& self.announcements.wf()
        &&& sound(self@)
    }

    /// The value of a well-formed registry is sound: the whitelist names no
    /// account twice, no proposal is confirmed twice by one account, every
    /// topic is kept under its own identifier, and every announcement under
    /// its own id, which is one that has been given out.
    pub proof fn law_well_formed(&self)
        requires
            self.wf(),
        ensures
            sound(self@),
    {
    }

    /// The parts of the value that hold of every registry whose parts are
    /// in order.
    proof fn lemma_keyed(&self)
        requires
            self.votes.wf(),
            self.topics.wf(),
            self.announcements.wf(),
        ensures
            forall|k: Seq<char>| self@.topics.contains_key(k) ==> (#[trigger] self@.topics[k]).identifier == k,
            forall|id: u64| self@.announcements.contains_key(id) ==> (#[trigger] self@.announcements[id]).id == id,
    {
        self.topics.lemma_keyed();
        self.announcements.lemma_indexes(IndexKind::Time);
    }

    /// A registry that keeps nothing: before it is instantiated.
    pub fn new() -> (r: State)
        ensures
            r.wf(),
            r@ == (StateModel {
                whitelist: Seq::empty(),
                votes: Map::empty(),
                topics: Map::empty(),
                announcements: Map::empty(),
                next_id: None,
                version: None,
            }),
    {
        let r = State {
            whitelist: Vec::new(),
            votes: VoteLedger::new(),
            topics: TopicRegistry::new(),
            announcements: announcements(),
            next_id: None,
            version: None,
        };
        assert(names(r.whitelist@) =~= Seq::<Seq<char>>::empty());
        r
    }

    /// A registry put together from its parts; `None` where its value
    /// would not be sound: where the whitelist names an account twice, a
    /// proposal is confirmed twice by one account, or an announcement has
    /// an id that has not been given out.
    #[verifier::loop_isolation(false)]
    pub fn restore(
        whitelist: Vec<String>,
        votes: VoteLedger,
        topics: TopicRegistry,
        announcements: AnnouncementStore,
        next_id: Option<u64>,
        version: Option<ContractVersion>,
    ) -> (r: Option<State>)
        requires
            votes.wf(),
            topics.wf(),
            announcements.wf(),
        ensures
            r is Some <==> sound(
                StateModel {
                    whitelist: names(whitelist@),
                    votes: votes@,
                    topics: topics@,
                    announcements: announcements@,
                    next_id,
                    version: version_model(version),
                },
            ),
            r matches Some(s) ==> s.wf() && s@ == (StateModel {
                whitelist: names(whitelist@),
                votes: votes@,
                topics: topics@,
                announcements: announcements@,
                next_id,
                version: version_model(version),
            }),
    {
        let state = State { whitelist, votes, topics, announcements, next_id, version };
        let ghost model = state@;
        proof {
            state.lemma_keyed();
        }
        if !distinct_names(&state.whitelist) {
            return None;
        }
        let entries = state.votes.scan_all();
        let ghost s = entry_pairs(entries@);
        proof {
            lemma_ascending_distinct(s);
        }
        let mut i: usize = 0;
        while i < entries.len()
            invariant
                i <= entries.len(),
                s == entry_pairs(entries@),
                distinct_keys(s),
                model.votes == as_map(s),
                forall|j: int| 0 <= j < i ==> (#[trigger] s[j]).1.confirmed.no_duplicates(),
            decreases entries.len() - i,
        {
            assert(s[i as int] == entries@[i as int].pair());
            if !distinct_names(&entries[i].vote.confirmed) {
                proof {
                    lemma_as_map_at(s, i as int);
                }
                return None;
            }
            i = i + 1;
        }
        proof {
            assert forall|k: Seq<char>| model.votes.contains_key(k) implies (#[trigger] model.votes[k]).confirmed.no_duplicates() by {
                lemma_as_map_entry(s, k);
                assert(s[position(s, k)].1.confirmed.no_duplicates());
            }
        }
        let last = match state.next_id {
            Some(n) => n,
            None => 0,
        };
        let all = state.announcements.by_time(None);
        let ghost found = listing(all@);
        let ghost records = model.announcements;
        let mut i: usize = 0;
        while i < all.len()
            invariant
                i <= all.len(),
                found == listing(all@),
                records == model.announcements,
                last == counter(model),
                answers(found, records, IndexKind::Time, None, None),
                forall|j: int| 0 <= j < i ==> (#[trigger] found[j]).id <= last,
            decreases all.len() - i,
        {
            assert(found[i as int] == all@[i as int]@);
            if all[i].id > last {
                proof {
                    assert(found.contains(found[i as int]));
                }
                return None;
            }
            i = i + 1;
        }
        proof {
            assert forall|id: u64| records.contains_key(id) implies id <= last by {
                assert(found.contains(records[id]));
                let j = choose|j: int| 0 <= j < found.len() && found[j] == records[id];
                assert(found[j].id <= last);
            }
        }
        Some(state)
    }

    /// The accounts on the whitelist, in the order they were added.
    pub fn whitelist(&self) -> (r: &Vec<String>)
        ensures
            names(r@) == self@.whitelist,
    {
        &self.whitelist
    }

    /// The open proposals.
    pub fn votes(&self) -> (r: &VoteLedger)
        ensures
            r@ == self@.votes,
            self.wf() ==> r.wf(),
    {
        &self.votes
    }

    /// The registered topics.
    pub fn topics(&self) -> (r: &TopicRegistry)
        ensures
            r@ == self@.topics,
            self.wf() ==> r.wf(),
    {
        &self.topics
    }

    /// The announcements and their orderings.
    pub fn announcements(&self) -> (r: &AnnouncementStore)
        ensures
            r@ == self@.announcements,
            self.wf() ==> r.wf(),
    {
        &self.announcements
    }

    /// The id given out last, if any has been.
    pub fn next_id(&self) -> (r: Option<u64>)
        ensures
            r == self@.next_id,
    {
        self.next_id
    }

    /// The name and version the registry goes by, once it has been set up.
    pub fn contract_version(&self) -> (r: &Option<ContractVersion>)
        ensures
            version_model(*r) == self@.version,
    {
        &self.version
    }

    /// Records the name and version the registry now goes by.
    pub fn set_version(&mut self, version: ContractVersion)
        requires
            old(self).wf(),
        ensures
            final(self).wf(),
            final(self)@ == (StateModel { version: Some(version@), ..old(self)@ }),
    {
        self.version = Some(version);
    }
}

/// Whether no name occurs twice in `list`.
pub fn distinct_names(list: &Vec<String>) -> (r: bool)
    ensures
        r == names(list@).no_duplicates(),
{
    let mut seen: Vec<String> = Vec::new();
    let mut i: usize = 0;
    proof {
        assert(names(list@).take(0) =~= Seq::<Seq<char>>::empty());
        assert(names(seen@) =~= Seq::<Seq<char>>::empty());
    }
    while i < list.len()
        invariant
            i <= list.len(),
            names(seen@) == names(list@).take(i as int),
            names(seen@).no_duplicates(),
        decreases list.len() - i,
    {
        if contains_name(&seen, list[i].as_str()) {
            proof {
                let s = names(list@);
                let j = choose|j: int| 0 <= j < i && s.take(i as int)[j] == s[i as int];
                assert(s[j] == s[i as int]);
            }
            return false;
        }
        let ghost before = names(seen@);
        seen.push(list[i].clone());
        proof {
            let s = names(list@);
            assert(names(seen@) =~= before.push(s[i as int]));
            assert(s.take(i + 1) =~= before.push(s[i as int]));
            assert(!before.contains(s[i as int]));
            assert forall|a: int, b: int| 0 <= a < names(seen@).len() && 0 <= b < names(seen@).len() && a != b implies names(
                seen@,
            )[a] != names(seen@)[b] by {
                if a < i && b < i {
                    assert(before[a] != before[b]);
                } else if a < i {
                    assert(before.contains(before[a]));
                } else {
                    assert(before.contains(before[b]));
                }
            }
        }
        i = i + 1;
    }
    proof {
        assert(names(list@).take(list.len() as int) =~= names(list@));
    }
    true
}

/// Sets the registry up: the caller alone is on the whitelist.
pub fn instantiate(state: &mut State, _env: Env, info: MessageInfo, _msg: InstantiateMsg) -> (r: Result<
    Response,
    ContractError,
>)
    requires
        old(state).wf(),
    ensures
        final(state).wf(),
        final(state)@ == (StateModel {
            whitelist: seq![info.sender@],
            version: Some(VersionModel { contract: CONTRACT_NAME@, version: CONTRACT_VERSION@ }),
            ..old(state)@
        }),
        r matches Ok(resp) && resp@.len() == 0 && resp.messages@.len() == 0,
{
    state.version = Some(
        ContractVersion { contract: CONTRACT_NAME.to_string(), version: CONTRACT_VERSION.to_string() },
    );
    let mut whitelist: Vec<String> = Vec::new();
    whitelist.push(info.sender);
    assert(names(whitelist@) =~= seq![info.sender@]);
    state.whitelist = whitelist;
    Ok(Response::default())
}

/// Takes the caller's vote for `action` on every account of `authors`:
/// sweeps the proposals that have lapsed, then lets each target's proposal
/// either reach its quorum and change the whitelist, or stay open.
///
/// A call that gives a proposal a deadline needs a block time from which a
/// lifetime can be counted; a call that is turned down, or only adds to
/// open proposals, needs nothing of the block time.
pub fn check_whitelist_confirmation(
    state: &mut State,
    env: Env,
    info: MessageInfo,
    authors: Vec<String>,
    action: WhitelistAction,
) -> (r: Result<Response, ContractError>)
    requires
        old(state).wf(),
        vote_sets_deadline(old(state)@, info.sender@, env.block.time.nanos, names(authors@), action)
            ==> env.block.time.nanos + VOTE_LIFETIME_NANOS <= u64::MAX,
    ensures
        final(state).wf(),
        (Outcome { state: final(state)@, result: reply(r) }) == vote(
            old(state)@,
            info.sender@,
            env.block.time.nanos,
            names(authors@),
            action,
        ),
        r matches Ok(resp) ==> resp.messages@.len() == 0,
{
    let now = env.block.time;
    let sender = info.sender.as_str();
    if !contains_name(&state.whitelist, sender) {
        return Err(ContractError::Unauthorized);
    }
    if authors.len() == 0 {
        return Err(ContractError::InvalidInput);
    }
    let mut whitelist = clone_names(&state.whitelist);
    let mut ledger = state.votes.clone();
    sweep_expired(&mut ledger, now);
    let ghost start = Registry { whitelist: state@.whitelist, votes: open_votes(state@.votes, now.nanos) };
    let ghost targets = names(authors@);
    let mut count = BatchCount { processed: 0, confirmed: 0, pending: 0 };
    let mut i: usize = 0;
    proof {
        assert(targets.take(0) =~= Seq::<Seq<char>>::empty());
    }
    while i < authors.len()
        invariant
            i <= authors.len(),
            targets == names(authors@),
            sender@ == info.sender@,
            authors.len() > 0,
            state.wf(),
            *state == *old(state),
            state@.whitelist.contains(sender@),
            start == (Registry { whitelist: state@.whitelist, votes: open_votes(state@.votes, now.nanos) }),
            now == env.block.time,
            ledger.wf(),
            forall|k: Seq<char>| ledger@.contains_key(k) ==> (#[trigger] ledger@[k]).confirmed.no_duplicates(),
            sets_deadline(start, sender@, targets, action, now.nanos) ==> now.nanos + VOTE_LIFETIME_NANOS
                <= u64::MAX,
            names(whitelist@).no_duplicates(),
            count.processed <= i,
            count.confirmed <= i,
            count.pending <= i,
            run(start, sender@, targets.take(i as int), action, now.nanos) == Some(
                Progress { registry: registry_of(&whitelist, &ledger), tally: count@ },
            ),
        decreases authors.len() - i,
    {
        let ghost before = Progress { registry: registry_of(&whitelist, &ledger), tally: count@ };
        proof {
            let next = targets.take(i + 1);
            assert(next.drop_last() =~= targets.take(i as int));
            assert(next.last() == authors@[i as int]@);
            lemma_voted_distinct(before.registry, sender@, authors@[i as int]@, action, now.nanos);
            if sets_deadline(start, sender@, next, action, now.nanos) {
                lemma_sets_deadline_part(start, sender@, targets, action, now.nanos, i + 1);
            }
        }
        match process_target(&mut whitelist, &mut ledger, &mut count, sender, authors[i].as_str(), action, now) {
            Ok(()) => {},
            Err(e) => {
                proof {
                    lemma_run_stuck(start, sender@, targets, action, now.nanos, i + 1);
                }
                return Err(e);
            },
        }
        i = i + 1;
    }
    proof {
        assert(targets.take(authors.len() as int) =~= targets);
    }
    state.whitelist = whitelist;
    state.votes = ledger;
    let listed = join(&authors, ",");
    let resp = Response::new().add_attribute("action", action.to_string()).add_attribute(
        "author",
        listed,
    ).add_attribute("processed", to_decimal(count.processed as u64)).add_attribute(
        "confirmed",
        to_decimal(count.confirmed as u64),
    ).add_attribute("pending", to_decimal(count.pending as u64));
    proof {
        let expected = vote(old(state)@, info.sender@, env.block.time.nanos, targets, action);
        assert(resp@ =~= expected.result->Ok_0);
    }
    Ok(resp)
}

/// Files an announcement by the caller under the next id.
///
/// Only a call that takes a new id needs one to be left; a call that is
/// turned down needs nothing of the counter.
pub fn execute_announcement(
    state: &mut State,
    env: Env,
    info: MessageInfo,
    title: String,
    content: String,
    topic: Option<String>,
) -> (r: Result<Response, ContractError>)
    requires
        old(state).wf(),
        announce_takes_id(old(state)@, info.sender@, opt_text(topic)) ==> counter(old(state)@) < u64::MAX,
    ensures
        final(state).wf(),
        (Outcome { state: final(state)@, result: reply(r) }) == announce(
            old(state)@,
            info.sender@,
            env.block.time.nanos,
            title@,
            content@,
            opt_text(topic),
        ),
        r matches Ok(resp) ==> resp.messages@.len() == 0,
{
    if !contains_name(&state.whitelist, info.sender.as_str()) {
        return Err(ContractError::Unauthorized);
    }
    let ghost asked = opt_text(topic);
    let filed = match topic {
        Some(identifier) => match state.topics.get(identifier.as_str()) {
            Some(topic) => Some(topic),
            None => {
                return Err(ContractError::NotFound);
            },
        },
        None => None,
    };
    let next_id: u64 = match state.next_id {
        Some(id) => id,
        None => 0,
    } + 1;
    state.next_id = Some(next_id);
    let announcement = Announcement::new(next_id, title, content, info.sender.clone(), filed, env.block.time);
    state.announcements.save(announcement);
    let resp = Response::new().add_attribute("action", "announcement".to_string()).add_attribute(
        "author",
        info.sender,
    ).add_attribute("id", to_decimal(next_id));
    proof {
        let expected = announce(
            old(state)@,
            info.sender@,
            env.block.time.nanos,
            title@,
            content@,
            asked,
        );
        assert(resp@ =~= expected.result->Ok_0);
    }
    Ok(resp)
}

/// Deletes the announcement with `id`, whoever made it.
pub fn execute_delete_announcement(state: &mut State, _env: Env, info: MessageInfo, id: u64) -> (r: Result<
    Response,
    ContractError,
>)
    requires
        old(state).wf(),
    ensures
        final(state).wf(),
        (Outcome { state: final(state)@, result: reply(r) }) == retract(old(state)@, info.sender@, id),
        r matches Ok(resp) ==> resp.messages@.len() == 0,
{
    if !contains_name(&state.whitelist, info.sender.as_str()) {
        return Err(ContractError::Unauthorized);
    }
    state.announcements.remove(id);
    let resp = Response::new().add_attribute("action", "delete_announcement".to_string()).add_attribute(
        "author",
        info.sender,
    ).add_attribute("id", to_decimal(id));
    proof {
        let expected = retract(old(state)@, info.sender@, id);
        assert(resp@ =~= expected.result->Ok_0);
    }
    Ok(resp)
}

/// Registers a topic.
pub fn execute_add_topic(
    state: &mut State,
    _env: Env,
    info: MessageInfo,
    identifier: String,
    name: String,
    description: String,
    color: String,
) -> (r: Result<Response, ContractError>)
    requires
        old(state).wf(),
    ensures
        final(state).wf(),
        (Outcome { state: final(state)@, result: reply(r) }) == add_topic(
            old(state)@,
            info.sender@,
            TopicModel { identifier: identifier@, name: name@, description: description@, color: color@ },
        ),
        r matches Ok(resp) ==> resp.messages@.len() == 0,
{
    if !contains_name(&state.whitelist, info.sender.as_str()) {
        return Err(ContractError::Unauthorized);
    }
    let topic = Topic::new(identifier.clone(), name, description, color);
    match state.topics.register(topic) {
        Ok(()) => {},
        Err(e) => {
            return Err(e);
        },
    }
    let resp = Response::new().add_attribute("action", "add_topic".to_string()).add_attribute(
        "author",
        info.sender,
    ).add_attribute("identifier", identifier);
    proof {
        let expected = add_topic(
            old(state)@,
            info.sender@,
            TopicModel { identifier: identifier@, name: name@, description: description@, color: color@ },
        );
        assert(resp@ =~= expected.result->Ok_0);
    }
    Ok(resp)
}

/// Whether one of `list` has a topic.
fn any_tagged(list: &Vec<Announcement>) -> (r: bool)
    ensures
        r == exists|i: int| 0 <= i < list.len() && (#[trigger] listing(list@)[i]).topic is Some,
{
    let mut i: usize = 0;
    while i < list.len()
        invariant
            i <= list.len(),
            forall|j: int| 0 <= j < i ==> (#[trigger] listing(list@)[j]).topic is None,
        decreases list.len() - i,
    {
        if list[i].topic.is_some() {
            assert(listing(list@)[i as int].topic is Some);
            return true;
        }
        assert(listing(list@)[i as int] == list@[i as int]@);
        i = i + 1;
    }
    false
}

/// Removes a topic, unless an announcement still has it.
pub fn execute_remove_topic(state: &mut State, _env: Env, info: MessageInfo, identifier: String) -> (r: Result<
    Response,
    ContractError,
>)
    requires
        old(state).wf(),
    ensures
        final(state).wf(),
        (Outcome { state: final(state)@, result: reply(r) }) == remove_topic(
            old(state)@,
            info.sender@,
            identifier@,
        ),
        r matches Ok(resp) ==> resp.messages@.len() == 0,
{
    if !contains_name(&state.whitelist, info.sender.as_str()) {
        return Err(ContractError::Unauthorized);
    }
    let list = state.announcements.by_topic(identifier.as_str(), None);
    let used = any_tagged(&list);
    proof {
        let records = state@.announcements;
        let found = listing(list@);
        state.announcements.lemma_indexes(IndexKind::Topic);
        if used {
            let i = choose|i: int| 0 <= i < list.len() && (#[trigger] found[i]).topic is Some;
            assert(found.contains(found[i]));
            assert(records[found[i].id].refers_to(identifier@));
        } else if in_use(state@, identifier@) {
            let id = choose|id: u64| records.contains_key(id) && (#[trigger] records[id]).refers_to(identifier@);
            assert(found.contains(records[id]));
            let i = choose|i: int| 0 <= i < found.len() && found[i] == records[id];
            assert(found[i].topic is Some);
        }
    }
    if used {
        return Err(ContractError::InUse);
    }
    state.topics.remove(identifier.as_str());
    let resp = Response::new().add_attribute("action", "remove_topic".to_string()).add_attribute(
        "author",
        info.sender,
    ).add_attribute("identifier", identifier);
    proof {
        let expected = remove_topic(old(state)@, info.sender@, identifier@);
        assert(resp@ =~= expected.result->Ok_0);
    }
    Ok(resp)
}

/// Carries out a command for the caller.
pub fn execute(state: &mut State, env: Env, info: MessageInfo, msg: ExecuteMsg) -> (r: Result<
    Response,
    ContractError,
>)
    requires
        old(state).wf(),
        within_limits(old(state)@, env.block.time.nanos, info.sender@, msg),
    ensures
        final(state).wf(),
        (Outcome { state: final(state)@, result: reply(r) }) == dispatch(
            old(state)@,
            env.block.time.nanos,
            info.sender@,
            msg,
        ),
        r matches Ok(resp) ==> resp.messages@.len() == 0,
{
    match msg {
        ExecuteMsg::AddToWhitelist { authors } => check_whitelist_confirmation(
            state,
            env,
            info,
            authors,
            WhitelistAction::Add,
        ),
        ExecuteMsg::RemoveFromWhitelist { authors } => check_whitelist_confirmation(
            state,
            env,
            info,
            authors,
            WhitelistAction::Remove,
        ),
        ExecuteMsg::Announcement { title, content, topic } => execute_announcement(
            state,
            env,
            info,
            title,
            content,
            topic,
        ),
        ExecuteMsg::DeleteAnnouncement { id } => execute_delete_announcement(state, env, info, id),
        ExecuteMsg::AddTopic { identifier, name, description, color } => execute_add_topic(
            state,
            env,
            info,
            identifier,
            name,
            description,
            color,
        ),
        ExecuteMsg::RemoveTopic { identifier } => execute_remove_topic(state, env, info, identifier),
    }
}

/// Moves the registry to this version of it.
pub fn migrate(state: &mut State, _env: Env, _msg: MigrateMsg) -> (r: Result<Response, ContractError>)
    requires
        old(state).wf(),
    ensures
        final(state).wf(),
        final(state)@ == migrated(old(state)@, CONTRACT_NAME@, CONTRACT_VERSION@).0,
        match r {
            Ok(resp) => migrated(old(state)@, CONTRACT_NAME@, CONTRACT_VERSION@).1 is Ok && resp@.len() == 0
                && resp.messages@.len() == 0,
            Err(e) => migrated(old(state)@, CONTRACT_NAME@, CONTRACT_VERSION@).1 == Err::<Parts, ContractError>(e),
        },
{
    match ensure_from_older_version(state, CONTRACT_NAME, CONTRACT_VERSION) {
        Ok(_) => Ok(Response::default()),
        Err(e) => Err(e),
    }
}

} // verus!
