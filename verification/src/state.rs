//! The records the registry keeps, and the mathematical value of each.

use vstd::prelude::*;
use crate::text::same_text;

pub use crate::store::{announcements, AnnouncementIndexes};

verus! {

/// Nanoseconds in one second.
pub const NANOS_PER_SECOND: u64 = 1_000_000_000;

/// A point in time, in nanoseconds since the epoch.
#[derive(Clone, Copy, Debug, PartialEq, Eq, Structural)]
pub struct Timestamp {
    pub nanos: u64,
}

impl Timestamp {
    /// The time `nanos` nanoseconds after the epoch.
    pub fn from_nanos(nanos: u64) -> (r: Timestamp)
        ensures
            r.nanos == nanos,
    {
        Timestamp { nanos }
    }

    /// The time `seconds` seconds after the epoch.
    pub fn from_seconds(seconds: u64) -> (r: Timestamp)
        requires
            seconds * NANOS_PER_SECOND <= u64::MAX,
        ensures
            r.nanos == seconds * NANOS_PER_SECOND,
    {
        Timestamp { nanos: seconds * NANOS_PER_SECOND }
    }

    /// Whole seconds since the epoch.
    pub open spec fn spec_seconds(self) -> u64 {
        self.nanos / NANOS_PER_SECOND
    }

    /// Whole seconds since the epoch.
    #[verifier::when_used_as_spec(spec_seconds)]
    pub fn seconds(self) -> (r: u64)
        ensures
            r == self.spec_seconds(),
    {
        self.nanos / NANOS_PER_SECOND
    }

    /// The time `addition` seconds later.
    pub fn plus_seconds(self, addition: u64) -> (r: Timestamp)
        requires
            self.nanos + addition * NANOS_PER_SECOND <= u64::MAX,
        ensures
            r.nanos == self.nanos + addition * NANOS_PER_SECOND,
    {
        Timestamp { nanos: self.nanos + addition * NANOS_PER_SECOND }
    }
}

/// What a proposal asks for.
#[derive(Clone, Copy, Debug, PartialEq, Eq, Structural)]
pub enum WhitelistAction {
    Add,
    Remove,
}

impl WhitelistAction {
    /// The action's name in lower case.
    pub open spec fn label(self) -> Seq<char> {
        match self {
            WhitelistAction::Add => "add"@,
            WhitelistAction::Remove => "remove"@,
        }
    }

    /// The action's name as result attributes carry it.
    pub fn to_string(&self) -> (r: String)
        ensures
            r@ == self.label(),
    {
        match self {
            WhitelistAction::Add => "add".to_string(),
            WhitelistAction::Remove => "remove".to_string(),
        }
    }
}

/// The identifiers a list of strings holds, in order.
pub open spec fn names(v: Seq<String>) -> Seq<Seq<char>> {
    v.map_values(|s: String| s@)
}

/// A copy of a list of identifiers.
pub fn clone_names(v: &Vec<String>) -> (r: Vec<String>)
    ensures
        names(r@) == names(v@),
{
    let mut out: Vec<String> = Vec::new();
    let mut i: usize = 0;
    while i < v.len()
        invariant
            i <= v.len(),
            out.len() == i,
            forall|j: int| 0 <= j < i ==> out@[j]@ == v@[j]@,
        decreases v.len() - i,
    {
        out.push(v[i].clone());
        i = i + 1;
    }
    assert(names(out@) =~= names(v@));
    out
}

/// Whether `who` occurs in `list`.
pub fn contains_name(list: &Vec<String>, who: &str) -> (r: bool)
    ensures
        r == names(list@).contains(who@),
{
    let mut i: usize = 0;
    while i < list.len()
        invariant
            i <= list.len(),
            forall|j: int| 0 <= j < i ==> list@[j]@ != who@,
        decreases list.len() - i,
    {
        if same_text(list[i].as_str(), who) {
            assert(names(list@)[i as int] == who@);
            return true;
        }
        i = i + 1;
    }
    assert(!names(list@).contains(who@)) by {
        if names(list@).contains(who@) {
            let j = choose|j: int| 0 <= j < names(list@).len() && names(list@)[j] == who@;
            assert(list@[j]@ == who@);
        }
    }
    false
}

/// The value of a proposal: who confirmed it, what it asks, and when it lapses.
pub struct VoteModel {
    pub confirmed: Seq<Seq<char>>,
    pub action: WhitelistAction,
    pub expires: u64,
}

/// A pending change of the whitelist, kept under the account it is about.
#[derive(Debug, PartialEq, Eq)]
pub struct WhitelistVote {
    pub confirmed: Vec<String>,
    pub action: WhitelistAction,
    pub expires: Timestamp,
}

impl View for WhitelistVote {
    type V = VoteModel;

    open spec fn view(&self) -> VoteModel {
        VoteModel {
            confirmed: names(self.confirmed@),
            action: self.action,
            expires: self.expires.nanos,
        }
    }
}

impl Clone for WhitelistVote {
    fn clone(&self) -> (r: WhitelistVote)
        ensures
            r@ == self@,
    {
        WhitelistVote {
            confirmed: clone_names(&self.confirmed),
            action: self.action,
            expires: self.expires,
        }
    }
}

/// The value of a topic.
pub struct TopicModel {
    pub identifier: Seq<char>,
    pub name: Seq<char>,
    pub description: Seq<char>,
    pub color: Seq<char>,
}

/// A subject that announcements can be filed under.
#[derive(Debug, PartialEq, Eq)]
pub struct Topic {
    pub identifier: String,
    pub name: String,
    pub description: String,
    pub color: String,
}

impl View for Topic {
    type V = TopicModel;

    open spec fn view(&self) -> TopicModel {
        TopicModel {
            identifier: self.identifier@,
            name: self.name@,
            description: self.description@,
            color: self.color@,
        }
    }
}

impl Topic {
    /// A topic with these four fields.
    pub fn new(identifier: String, name: String, description: String, color: String) -> (r: Topic)
        ensures
            r.identifier == identifier,
            r.name == name,
            r.description == description,
            r.color == color,
    {
        Topic { identifier, name, description, color }
    }

    /// A topic is written out as its identifier.
    pub fn to_string(&self) -> (r: String)
        ensures
            r@ == self@.identifier,
    {
        self.identifier.clone()
    }
}

impl Clone for Topic {
    fn clone(&self) -> (r: Topic)
        ensures
            r@ == self@,
    {
        Topic {
            identifier: self.identifier.clone(),
            name: self.name.clone(),
            description: self.description.clone(),
            color: self.color.clone(),
        }
    }
}

impl Default for Topic {
    fn default() -> (r: Topic)
        ensures
            r@ == (TopicModel {
                identifier: Seq::empty(),
                name: Seq::empty(),
                description: Seq::empty(),
                color: Seq::empty(),
            }),
    {
        Topic::new(String::new(), String::new(), String::new(), String::new())
    }
}

/// The value of an announcement.
pub struct AnnouncementModel {
    pub id: u64,
    pub title: Seq<char>,
    pub content: Seq<char>,
    pub author: Seq<char>,
    pub topic: Option<TopicModel>,
    pub time: u64,
}

impl AnnouncementModel {
    /// Whether the announcement has a topic, and that topic goes by
    /// `identifier`. An untagged announcement has no topic.
    pub open spec fn refers_to(self, identifier: Seq<char>) -> bool {
        self.topic matches Some(t) && t.identifier == identifier
    }

    /// The identifier it is listed under by a query for a topic; an
    /// untagged one is listed under the empty identifier.
    pub open spec fn topic_key(self) -> Seq<char> {
        match self.topic {
            Some(t) => t.identifier,
            None => Seq::empty(),
        }
    }
}

/// One entry of the announcement log.
#[derive(Debug, PartialEq, Eq)]
pub struct Announcement {
    pub id: u64,
    pub title: String,
    pub content: String,
    pub author: String,
    pub topic: Option<Topic>,
    pub time: Timestamp,
}

/// The value of an optional topic.
pub open spec fn topic_model(t: Option<Topic>) -> Option<TopicModel> {
    match t {
        Some(t) => Some(t@),
        None => None,
    }
}

impl View for Announcement {
    type V = AnnouncementModel;

    open spec fn view(&self) -> AnnouncementModel {
        AnnouncementModel {
            id: self.id,
            title: self.title@,
            content: self.content@,
            author: self.author@,
            topic: topic_model(self.topic),
            time: self.time.nanos,
        }
    }
}

impl Announcement {
    /// An announcement with these six fields.
    pub fn new(
        id: u64,
        title: String,
        content: String,
        author: String,
        topic: Option<Topic>,
        time: Timestamp,
    ) -> (r: Announcement)
        ensures
            r.id == id,
            r.title == title,
            r.content == content,
            r.author == author,
            r.topic == topic,
            r.time == time,
    {
        Announcement { id, title, content, author, topic, time }
    }
}

impl Clone for Announcement {
    fn clone(&self) -> (r: Announcement)
        ensures
            r@ == self@,
    {
        let topic = match &self.topic {
            Some(t) => Some(t.clone()),
            None => None,
        };
        Announcement {
            id: self.id,
            title: self.title.clone(),
            content: self.content.clone(),
            author: self.author.clone(),
            topic,
            time: self.time,
        }
    }
}

impl Default for Announcement {
    fn default() -> (r: Announcement)
        ensures
            r@ == (AnnouncementModel {
                id: 0,
                title: Seq::empty(),
                content: Seq::empty(),
                author: Seq::empty(),
                topic: None,
                time: 0,
            }),
    {
        Announcement::new(
            0,
            String::new(),
            String::new(),
            String::new(),
            None,
            Timestamp::from_seconds(0),
        )
    }
}

} // verus!
