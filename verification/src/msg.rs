//! The commands and queries the registry takes, the circumstances of a
//! call, and what a command answers.

use vstd::prelude::*;
use crate::state::Timestamp;

verus! {

/// Asks the registry to move to the current version.
#[derive(Clone, Copy, Debug, PartialEq, Eq, Structural)]
pub struct MigrateMsg {}

/// Asks for the registry to be set up.
#[derive(Clone, Copy, Debug, PartialEq, Eq, Structural)]
pub struct InstantiateMsg {}

/// A command: a vote on the whitelist, or a change of the announcements or
/// the topics.
#[derive(Debug, PartialEq, Eq)]
pub enum ExecuteMsg {
    AddToWhitelist { authors: Vec<String> },
    RemoveFromWhitelist { authors: Vec<String> },
    Announcement { title: String, content: String, topic: Option<String> },
    DeleteAnnouncement { id: u64 },
    AddTopic { identifier: String, name: String, description: String, color: String },
    RemoveTopic { identifier: String },
}

/// A query.
#[derive(Debug, PartialEq, Eq)]
pub enum QueryMsg {
    Whitelist {},
    Pending {},
    Announcements(QueryAnnouncementsMsg),
}

/// Which announcements a query asks for.
#[derive(Debug, PartialEq, Eq)]
pub struct QueryAnnouncementsMsg {
    pub author: Option<String>,
    pub topic: Option<String>,
    pub since: Option<Timestamp>,
}

/// The block a call is made in.
#[derive(Clone, Copy, Debug, PartialEq, Eq, Structural)]
pub struct BlockInfo {
    pub time: Timestamp,
}

/// The circumstances of a call.
#[derive(Clone, Copy, Debug, PartialEq, Eq, Structural)]
pub struct Env {
    pub block: BlockInfo,
}

/// Who makes a call.
#[derive(Debug, PartialEq, Eq)]
pub struct MessageInfo {
    pub sender: String,
}

/// A named value in the answer to a command.
#[derive(Debug, PartialEq, Eq)]
pub struct Attribute {
    pub key: String,
    pub value: String,
}

/// What a command answers: the messages it sends on, of which this
/// registry sends none, and its attributes.
#[derive(Debug, PartialEq, Eq)]
pub struct Response {
    pub messages: Vec<String>,
    pub attributes: Vec<Attribute>,
}

/// The attributes of a list, as pairs of key and value.
pub open spec fn attribute_pairs(v: Seq<Attribute>) -> Seq<(Seq<char>, Seq<char>)> {
    v.map_values(|a: Attribute| (a.key@, a.value@))
}

impl View for Response {
    type V = Seq<(Seq<char>, Seq<char>)>;

    /// The attributes, as pairs of key and value.
    open spec fn view(&self) -> Seq<(Seq<char>, Seq<char>)> {
        attribute_pairs(self.attributes@)
    }
}

impl Response {
    /// An answer without attributes.
    pub fn new() -> (r: Response)
        ensures
            r@ == Seq::<(Seq<char>, Seq<char>)>::empty(),
            r.messages@.len() == 0,
    {
        let r = Response { messages: Vec::new(), attributes: Vec::new() };
        assert(r@ =~= Seq::<(Seq<char>, Seq<char>)>::empty());
        r
    }

    /// The answer with one more attribute at its end.
    pub fn add_attribute(self, key: &str, value: String) -> (r: Response)
        ensures
            r@ == self@.push((key@, value@)),
            r.messages == self.messages,
    {
        let mut r = self;
        let ghost before = r@;
        r.attributes.push(Attribute { key: key.to_string(), value });
        assert(r@ =~= before.push((key@, value@)));
        r
    }
}

impl Default for Response {
    fn default() -> (r: Response)
        ensures
            r@ == Seq::<(Seq<char>, Seq<char>)>::empty(),
            r.messages@.len() == 0,
    {
        Response::new()
    }
}

} // verus!
