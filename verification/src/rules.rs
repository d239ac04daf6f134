//! What each command does, stated over the value of the registry.

use vstd::prelude::*;
use crate::batch::{open_votes, run, sets_deadline, Registry};
use crate::error::ContractError;
use crate::msg::ExecuteMsg;
use crate::quorum::VOTE_LIFETIME_NANOS;
use crate::state::{names, AnnouncementModel, TopicModel, VoteModel, WhitelistAction};
use crate::text::{decimal, joined};

verus! {

/// The name and version a registry was set up or last migrated as.
pub struct VersionModel {
    pub contract: Seq<char>,
    pub version: Seq<char>,
}

/// The value of the registry: everything it keeps.
pub struct StateModel {
    pub whitelist: Seq<Seq<char>>,
    pub votes: Map<Seq<char>, VoteModel>,
    pub topics: Map<Seq<char>, TopicModel>,
    pub announcements: Map<u64, AnnouncementModel>,
    pub next_id: Option<u64>,
    pub version: Option<VersionModel>,
}

/// What holds of the value of every registry: the whitelist names no
/// account twice, no proposal is confirmed twice by one account, every
/// topic is kept under its own identifier, and every announcement under
/// its own id, which is one that has been given out.
pub open spec fn sound(m: StateModel) -> bool {
    &&& m.whitelist.no_duplicates()
    &&& forall|k: Seq<char>| m.votes.contains_key(k) ==> (#[trigger] m.votes[k]).confirmed.no_duplicates()
    &&& forall|k: Seq<char>| m.topics.contains_key(k) ==> (#[trigger] m.topics[k]).identifier == k
    &&& forall|id: u64| m.announcements.contains_key(id) ==> (#[trigger] m.announcements[id]).id == id && id
        <= counter(m)
}

/// The attributes of an answer.
pub type Attributes = Seq<(Seq<char>, Seq<char>)>;

/// What a command leaves behind and what it answers.
pub struct Outcome {
    pub state: StateModel,
    pub result: Result<Attributes, ContractError>,
}

/// A command that is turned down leaves the registry as it was.
pub open spec fn refused(m: StateModel, e: ContractError) -> Outcome {
    Outcome { state: m, result: Err(e) }
}

/// The last id given out; none has been given out before the first
/// announcement.
pub open spec fn counter(m: StateModel) -> u64 {
    match m.next_id {
        Some(n) => n,
        None => 0,
    }
}

/// Whether some announcement has the topic `identifier`. An untagged
/// announcement has no topic, and so keeps none in use.
pub open spec fn in_use(m: StateModel, identifier: Seq<char>) -> bool {
    exists|id: u64| m.announcements.contains_key(id) && (#[trigger] m.announcements[id]).refers_to(identifier)
}

/// Instantiation: the caller alone is on the whitelist, and nothing else is
/// kept but the name and version.
pub open spec fn fresh(sender: Seq<char>, version: VersionModel) -> StateModel {
    StateModel {
        whitelist: seq![sender],
        votes: Map::empty(),
        topics: Map::empty(),
        announcements: Map::empty(),
        next_id: None,
        version: Some(version),
    }
}

/// A vote by `sender` for `action` on each of `targets`.
pub open spec fn vote(
    m: StateModel,
    sender: Seq<char>,
    now: u64,
    targets: Seq<Seq<char>>,
    action: WhitelistAction,
) -> Outcome {
    if !m.whitelist.contains(sender) {
        refused(m, ContractError::Unauthorized)
    } else if targets.len() == 0 {
        refused(m, ContractError::InvalidInput)
    } else {
        let start = Registry { whitelist: m.whitelist, votes: open_votes(m.votes, now) };
        match run(start, sender, targets, action, now) {
            None => refused(m, ContractError::InvalidInput),
            Some(p) => Outcome {
                state: StateModel { whitelist: p.registry.whitelist, votes: p.registry.votes, ..m },
                result: Ok(
                    seq![
                        ("action"@, action.label()),
                        ("author"@, joined(targets, ","@)),
                        ("processed"@, decimal(p.tally.processed)),
                        ("confirmed"@, decimal(p.tally.confirmed)),
                        ("pending"@, decimal(p.tally.pending)),
                    ],
                ),
            },
        }
    }
}

/// Whether a vote gives some proposal a deadline: the caller is a member,
/// and some target's proposal is started afresh.
pub open spec fn vote_sets_deadline(
    m: StateModel,
    sender: Seq<char>,
    now: u64,
    targets: Seq<Seq<char>>,
    action: WhitelistAction,
) -> bool {
    m.whitelist.contains(sender) && sets_deadline(
        Registry { whitelist: m.whitelist, votes: open_votes(m.votes, now) },
        sender,
        targets,
        action,
        now,
    )
}

/// Whether an announcement takes a new id: the caller is a member, and
/// the topic, if one is named, is registered.
pub open spec fn announce_takes_id(m: StateModel, sender: Seq<char>, topic: Option<Seq<char>>) -> bool {
    m.whitelist.contains(sender) && (topic matches Some(t) ==> m.topics.contains_key(t))
}

/// An announcement by `sender`.
pub open spec fn announce(
    m: StateModel,
    sender: Seq<char>,
    now: u64,
    title: Seq<char>,
    content: Seq<char>,
    topic: Option<Seq<char>>,
) -> Outcome {
    if !m.whitelist.contains(sender) {
        refused(m, ContractError::Unauthorized)
    } else if topic is Some && !m.topics.contains_key(topic->0) {
        refused(m, ContractError::NotFound)
    } else {
        let id = (counter(m) + 1) as u64;
        let record = AnnouncementModel {
            id,
            title,
            content,
            author: sender,
            topic: match topic {
                Some(t) => Some(m.topics[t]),
                None => None,
            },
            time: now,
        };
        Outcome {
            state: StateModel { next_id: Some(id), announcements: m.announcements.insert(id, record), ..m },
            result: Ok(seq![("action"@, "announcement"@), ("author"@, sender), ("id"@, decimal(id as nat))]),
        }
    }
}

/// The deletion of the announcement with `id`.
pub open spec fn retract(m: StateModel, sender: Seq<char>, id: u64) -> Outcome {
    if !m.whitelist.contains(sender) {
        refused(m, ContractError::Unauthorized)
    } else {
        Outcome {
            state: StateModel { announcements: m.announcements.remove(id), ..m },
            result: Ok(seq![("action"@, "delete_announcement"@), ("author"@, sender), ("id"@, decimal(id as nat))]),
        }
    }
}

/// The registration of a topic.
pub open spec fn add_topic(m: StateModel, sender: Seq<char>, topic: TopicModel) -> Outcome {
    if !m.whitelist.contains(sender) {
        refused(m, ContractError::Unauthorized)
    } else if m.topics.contains_key(topic.identifier) {
        refused(m, ContractError::AlreadyExists)
    } else {
        Outcome {
            state: StateModel { topics: m.topics.insert(topic.identifier, topic), ..m },
            result: Ok(seq![("action"@, "add_topic"@), ("author"@, sender), ("identifier"@, topic.identifier)]),
        }
    }
}

/// The removal of a topic.
pub open spec fn remove_topic(m: StateModel, sender: Seq<char>, identifier: Seq<char>) -> Outcome {
    if !m.whitelist.contains(sender) {
        refused(m, ContractError::Unauthorized)
    } else if in_use(m, identifier) {
        refused(m, ContractError::InUse)
    } else {
        Outcome {
            state: StateModel { topics: m.topics.remove(identifier), ..m },
            result: Ok(seq![("action"@, "remove_topic"@), ("author"@, sender), ("identifier"@, identifier)]),
        }
    }
}

/// The value of an optional piece of text.
pub open spec fn opt_text(t: Option<String>) -> Option<Seq<char>> {
    match t {
        Some(t) => Some(t@),
        None => None,
    }
}

/// What the machine asks of a command: where it gives a proposal a
/// deadline, a lifetime from `now` is a time that can be told; where it
/// takes a new id, one is left to take. Nothing is asked of a command that
/// is turned down before.
pub open spec fn within_limits(m: StateModel, now: u64, sender: Seq<char>, msg: ExecuteMsg) -> bool {
    match msg {
        ExecuteMsg::AddToWhitelist { authors } => vote_sets_deadline(
            m,
            sender,
            now,
            names(authors@),
            WhitelistAction::Add,
        ) ==> now + VOTE_LIFETIME_NANOS <= u64::MAX,
        ExecuteMsg::RemoveFromWhitelist { authors } => vote_sets_deadline(
            m,
            sender,
            now,
            names(authors@),
            WhitelistAction::Remove,
        ) ==> now + VOTE_LIFETIME_NANOS <= u64::MAX,
        ExecuteMsg::Announcement { title, content, topic } => announce_takes_id(m, sender, opt_text(topic))
            ==> counter(m) < u64::MAX,
        _ => true,
    }
}

/// What a command does.
pub open spec fn dispatch(m: StateModel, now: u64, sender: Seq<char>, msg: ExecuteMsg) -> Outcome {
    match msg {
        ExecuteMsg::AddToWhitelist { authors } => vote(m, sender, now, names(authors@), WhitelistAction::Add),
        ExecuteMsg::RemoveFromWhitelist { authors } => vote(
            m,
            sender,
            now,
            names(authors@),
            WhitelistAction::Remove,
        ),
        ExecuteMsg::Announcement { title, content, topic } => announce(
            m,
            sender,
            now,
            title@,
            content@,
            opt_text(topic),
        ),
        ExecuteMsg::DeleteAnnouncement { id } => retract(m, sender, id),
        ExecuteMsg::AddTopic { identifier, name, description, color } => add_topic(
            m,
            sender,
            TopicModel { identifier: identifier@, name: name@, description: description@, color: color@ },
        ),
        ExecuteMsg::RemoveTopic { identifier } => remove_topic(m, sender, identifier@),
    }
}

} // verus!
