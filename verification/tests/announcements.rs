use announcer::contract::{
    execute, execute_add_topic, execute_announcement, execute_delete_announcement, execute_remove_topic, State,
};
use announcer::ledger::VoteLedger;
use announcer::msg::{BlockInfo, Env, ExecuteMsg, MessageInfo, QueryAnnouncementsMsg, QueryMsg, Response};
use announcer::query::{query, query_announcements, QueryResponse};
use announcer::state::{Announcement, Timestamp, Topic};
use announcer::store::{announcements, AnnouncementStore};
use announcer::topics::TopicRegistry;
use announcer::ContractError;

fn at(seconds: u64) -> Env {
    Env { block: BlockInfo { time: Timestamp::from_seconds(seconds) } }
}

fn who(sender: &str) -> MessageInfo {
    MessageInfo { sender: sender.to_string() }
}

fn registry(list: &[&str]) -> State {
    let whitelist = list.iter().map(|a| a.to_string()).collect();
    State::restore(whitelist, VoteLedger::new(), TopicRegistry::new(), announcements(), None, None).unwrap()
}

fn pairs(res: &Response) -> Vec<(String, String)> {
    res.attributes.iter().map(|a| (a.key.clone(), a.value.clone())).collect()
}

fn expect(list: &[(&str, &str)]) -> Vec<(String, String)> {
    list.iter().map(|(k, v)| (k.to_string(), v.to_string())).collect()
}

fn announce(state: &mut State, sender: &str, seconds: u64, title: &str, topic: Option<&str>) -> Result<Response, ContractError> {
    execute(
        state,
        at(seconds),
        who(sender),
        ExecuteMsg::Announcement {
            title: title.to_string(),
            content: format!("about {}", title),
            topic: topic.map(|t| t.to_string()),
        },
    )
}

fn add_topic(state: &mut State, sender: &str, identifier: &str) -> Result<Response, ContractError> {
    execute(
        state,
        at(1),
        who(sender),
        ExecuteMsg::AddTopic {
            identifier: identifier.to_string(),
            name: format!("{} name", identifier),
            description: format!("{} description", identifier),
            color: "#fff".to_string(),
        },
    )
}

fn ask(state: &State, author: Option<&str>, topic: Option<&str>, since: Option<Timestamp>) -> Vec<u64> {
    let msg = QueryAnnouncementsMsg {
        author: author.map(|a| a.to_string()),
        topic: topic.map(|t| t.to_string()),
        since,
    };
    query_announcements(state, at(0), msg).iter().map(|a| a.id).collect()
}

fn sample() -> State {
    let mut state = registry(&["A", "B"]);
    add_topic(&mut state, "A", "news").unwrap();
    add_topic(&mut state, "A", "ops").unwrap();
    announce(&mut state, "A", 10, "one", Some("news")).unwrap();
    announce(&mut state, "B", 10, "two", None).unwrap();
    announce(&mut state, "A", 5, "three", Some("ops")).unwrap();
    announce(&mut state, "B", 20, "four", Some("news")).unwrap();
    announce(&mut state, "A", 20, "five", None).unwrap();
    state
}

#[test]
fn first_announcement_has_id_one() {
    let mut state = registry(&["A"]);
    assert_eq!(state.next_id(), None);
    let res = announce(&mut state, "A", 7, "hello", None).unwrap();
    assert_eq!(pairs(&res), expect(&[("action", "announcement"), ("author", "A"), ("id", "1")]));
    assert_eq!(res.messages.len(), 0);
    assert_eq!(state.next_id(), Some(1));
    let res = announce(&mut state, "A", 7, "again", None).unwrap();
    assert_eq!(pairs(&res), expect(&[("action", "announcement"), ("author", "A"), ("id", "2")]));
    assert_eq!(
        state.announcements().may_load(1),
        Some(Announcement {
            id: 1,
            title: "hello".to_string(),
            content: "about hello".to_string(),
            author: "A".to_string(),
            topic: None,
            time: Timestamp::from_seconds(7),
        })
    );
    assert_eq!(state.announcements().may_load(3), None);
}

#[test]
fn announcement_carries_the_topic_as_registered() {
    let mut state = registry(&["A"]);
    add_topic(&mut state, "A", "news").unwrap();
    announce(&mut state, "A", 7, "hello", Some("news")).unwrap();
    let kept = state.announcements().may_load(1).unwrap();
    assert_eq!(
        kept.topic,
        Some(Topic::new(
            "news".to_string(),
            "news name".to_string(),
            "news description".to_string(),
            "#fff".to_string()
        ))
    );
    assert_eq!(kept.time, Timestamp::from_seconds(7));
}

#[test]
fn unknown_topic_is_not_found_and_changes_nothing() {
    let mut state = registry(&["A"]);
    assert_eq!(announce(&mut state, "A", 7, "hello", Some("news")), Err(ContractError::NotFound));
    assert_eq!(state.next_id(), None);
    assert_eq!(state.announcements().len(), 0);
    let res = announce(&mut state, "A", 7, "hello", None).unwrap();
    assert_eq!(pairs(&res)[2], ("id".to_string(), "1".to_string()));
}

#[test]
fn only_members_announce_and_delete() {
    let mut state = registry(&["A"]);
    assert_eq!(announce(&mut state, "X", 7, "hello", None), Err(ContractError::Unauthorized));
    assert_eq!(announce(&mut state, "X", 7, "hello", Some("nothing")), Err(ContractError::Unauthorized));
    announce(&mut state, "A", 7, "hello", None).unwrap();
    let denied = execute(&mut state, at(8), who("X"), ExecuteMsg::DeleteAnnouncement { id: 1 });
    assert_eq!(denied, Err(ContractError::Unauthorized));
    assert_eq!(state.announcements().len(), 1);
    assert_eq!(add_topic(&mut state, "X", "news"), Err(ContractError::Unauthorized));
    let denied = execute(&mut state, at(8), who("X"), ExecuteMsg::RemoveTopic { identifier: "news".to_string() });
    assert_eq!(denied, Err(ContractError::Unauthorized));
}

#[test]
fn any_member_deletes_any_announcement() {
    let mut state = registry(&["A", "B"]);
    announce(&mut state, "A", 7, "hello", None).unwrap();
    let res = execute(&mut state, at(8), who("B"), ExecuteMsg::DeleteAnnouncement { id: 1 }).unwrap();
    assert_eq!(pairs(&res), expect(&[("action", "delete_announcement"), ("author", "B"), ("id", "1")]));
    assert_eq!(state.announcements().len(), 0);
    let res = execute(&mut state, at(8), who("B"), ExecuteMsg::DeleteAnnouncement { id: 42 }).unwrap();
    assert_eq!(pairs(&res), expect(&[("action", "delete_announcement"), ("author", "B"), ("id", "42")]));
    assert_eq!(state.next_id(), Some(1));
    let res = announce(&mut state, "A", 9, "next", None).unwrap();
    assert_eq!(pairs(&res)[2], ("id".to_string(), "2".to_string()));
}

#[test]
fn newest_first_with_ties_by_id() {
    let state = sample();
    assert_eq!(ask(&state, None, None, None), vec![5, 4, 2, 1, 3]);
}

#[test]
fn by_author_and_by_topic() {
    let state = sample();
    assert_eq!(ask(&state, Some("A"), None, None), vec![5, 1, 3]);
    assert_eq!(ask(&state, Some("B"), None, None), vec![4, 2]);
    assert_eq!(ask(&state, Some("C"), None, None), Vec::<u64>::new());
    assert_eq!(ask(&state, None, Some("news"), None), vec![4, 1]);
    assert_eq!(ask(&state, None, Some("ops"), None), vec![3]);
    assert_eq!(ask(&state, None, Some(""), None), vec![5, 2]);
    assert_eq!(ask(&state, None, Some("none"), None), Vec::<u64>::new());
}

#[test]
fn author_goes_before_topic() {
    let state = sample();
    assert_eq!(ask(&state, Some("A"), Some("news"), None), vec![5, 1, 3]);
    assert_eq!(ask(&state, Some("B"), Some("ops"), None), vec![4, 2]);
}

#[test]
fn since_is_an_inclusive_bound_on_the_time() {
    let state = sample();
    assert_eq!(ask(&state, None, None, Some(Timestamp::from_seconds(10))), vec![5, 4, 2, 1]);
    assert_eq!(ask(&state, None, None, Some(Timestamp::from_nanos(10_000_000_001))), vec![5, 4]);
    assert_eq!(ask(&state, None, None, Some(Timestamp::from_nanos(10_999_999_999))), vec![5, 4]);
    assert_eq!(ask(&state, None, None, Some(Timestamp::from_seconds(11))), vec![5, 4]);
    assert_eq!(ask(&state, None, None, Some(Timestamp::from_seconds(20))), vec![5, 4]);
    assert_eq!(ask(&state, None, None, Some(Timestamp::from_nanos(20_000_000_001))), Vec::<u64>::new());
    assert_eq!(ask(&state, None, None, Some(Timestamp::from_seconds(21))), Vec::<u64>::new());
    assert_eq!(ask(&state, Some("A"), None, Some(Timestamp::from_seconds(6))), vec![5, 1]);
    assert_eq!(ask(&state, None, Some("news"), Some(Timestamp::from_seconds(20))), vec![4]);
    assert_eq!(ask(&state, None, None, Some(Timestamp::from_seconds(0))), vec![5, 4, 2, 1, 3]);
}

fn announce_at(state: &mut State, sender: &str, nanos: u64, title: &str) -> u64 {
    let env = Env { block: BlockInfo { time: Timestamp::from_nanos(nanos) } };
    let msg = ExecuteMsg::Announcement { title: title.to_string(), content: String::new(), topic: None };
    let res = execute(state, env, who(sender), msg).unwrap();
    pairs(&res)[2].1.parse().unwrap()
}

#[test]
fn order_is_by_the_time_itself() {
    let mut state = registry(&["A"]);
    assert_eq!(announce_at(&mut state, "A", 1_500_000_000, "later"), 1);
    assert_eq!(announce_at(&mut state, "A", 1_200_000_000, "earlier"), 2);
    assert_eq!(announce_at(&mut state, "A", 1_200_000_000, "tie"), 3);
    assert_eq!(announce_at(&mut state, "A", 1_999_999_999, "latest"), 4);
    assert_eq!(ask(&state, None, None, None), vec![4, 1, 3, 2]);
    assert_eq!(ask(&state, Some("A"), None, None), vec![4, 1, 3, 2]);
    assert_eq!(ask(&state, None, Some(""), None), vec![4, 1, 3, 2]);
    let titles: Vec<String> = query_announcements(
        &state,
        at(0),
        QueryAnnouncementsMsg { author: None, topic: None, since: None },
    )
    .into_iter()
    .map(|a| a.title)
    .collect();
    assert_eq!(titles, vec!["latest", "later", "tie", "earlier"]);
}

#[test]
fn since_within_a_second_leaves_out_what_is_earlier() {
    let mut state = registry(&["A"]);
    announce_at(&mut state, "A", 200_200_000_000, "before");
    announce_at(&mut state, "A", 200_500_000_000, "at");
    announce_at(&mut state, "A", 200_700_000_000, "after");
    assert_eq!(ask(&state, None, None, Some(Timestamp::from_nanos(200_500_000_000))), vec![3, 2]);
    assert_eq!(ask(&state, Some("A"), None, Some(Timestamp::from_nanos(200_500_000_001))), vec![3]);
    assert_eq!(ask(&state, None, Some(""), Some(Timestamp::from_nanos(200_200_000_000))), vec![3, 2, 1]);
    assert_eq!(ask(&state, None, None, Some(Timestamp::from_seconds(200))), vec![3, 2, 1]);
    assert_eq!(ask(&state, None, None, Some(Timestamp::from_seconds(201))), Vec::<u64>::new());
}

#[test]
fn orderings_stay_consistent_over_creates_and_deletes() {
    let mut state = sample();
    execute(&mut state, at(30), who("A"), ExecuteMsg::DeleteAnnouncement { id: 4 }).unwrap();
    execute(&mut state, at(30), who("B"), ExecuteMsg::DeleteAnnouncement { id: 1 }).unwrap();
    announce(&mut state, "B", 7, "six", Some("ops")).unwrap();
    let all = ask(&state, None, None, None);
    assert_eq!(all, vec![5, 2, 6, 3]);

    let mut by_author: Vec<u64> = Vec::new();
    for author in ["A", "B"] {
        by_author.extend(ask(&state, Some(author), None, None));
    }
    let mut by_topic: Vec<u64> = Vec::new();
    for topic in ["news", "ops", ""] {
        by_topic.extend(ask(&state, None, Some(topic), None));
    }
    let mut sorted = all.clone();
    sorted.sort();
    by_author.sort();
    by_topic.sort();
    assert_eq!(by_author, sorted);
    assert_eq!(by_topic, sorted);
    assert_eq!(ask(&state, Some("A"), None, None), vec![5, 3]);
    assert_eq!(ask(&state, Some("B"), None, None), vec![2, 6]);
    assert_eq!(ask(&state, None, Some("news"), None), Vec::<u64>::new());
    assert_eq!(ask(&state, None, Some("ops"), None), vec![6, 3]);
    let store = state.announcements();
    assert_eq!(store.len(), 4);
    assert_eq!(store.indexes().author.len(), 4);
    assert_eq!(store.indexes().time.len(), 4);
    assert_eq!(store.indexes().topic.len(), 4);
}

#[test]
fn query_dispatches_to_announcements() {
    let state = sample();
    let msg = QueryMsg::Announcements(QueryAnnouncementsMsg { author: None, topic: Some("ops".to_string()), since: None });
    match query(&state, at(0), msg) {
        QueryResponse::Announcements(list) => {
            assert_eq!(list.len(), 1);
            assert_eq!(list[0].title, "three");
            assert_eq!(list[0].author, "A");
        }
        other => panic!("unexpected answer {:?}", other),
    }
}

#[test]
fn topic_is_registered_once() {
    let mut state = registry(&["A"]);
    let res = add_topic(&mut state, "A", "news").unwrap();
    assert_eq!(pairs(&res), expect(&[("action", "add_topic"), ("author", "A"), ("identifier", "news")]));
    assert_eq!(add_topic(&mut state, "A", "news"), Err(ContractError::AlreadyExists));
    assert_eq!(state.topics().get("news").unwrap().name, "news name");
    assert_eq!(state.topics().list().len(), 1);
}

#[test]
fn topic_in_use_cannot_be_removed() {
    let mut state = registry(&["A", "B"]);
    add_topic(&mut state, "A", "news").unwrap();
    announce(&mut state, "A", 1, "one", Some("news")).unwrap();
    announce(&mut state, "B", 2, "two", Some("news")).unwrap();
    let remove = |state: &mut State| {
        execute(state, at(3), who("B"), ExecuteMsg::RemoveTopic { identifier: "news".to_string() })
    };
    assert_eq!(remove(&mut state), Err(ContractError::InUse));
    execute(&mut state, at(3), who("A"), ExecuteMsg::DeleteAnnouncement { id: 1 }).unwrap();
    assert_eq!(remove(&mut state), Err(ContractError::InUse));
    assert!(state.topics().get("news").is_some());
    execute(&mut state, at(3), who("A"), ExecuteMsg::DeleteAnnouncement { id: 2 }).unwrap();
    let res = remove(&mut state).unwrap();
    assert_eq!(pairs(&res), expect(&[("action", "remove_topic"), ("author", "B"), ("identifier", "news")]));
    assert!(state.topics().get("news").is_none());
    assert_eq!(announce(&mut state, "A", 4, "three", Some("news")), Err(ContractError::NotFound));
}

#[test]
fn removing_an_unregistered_topic_succeeds() {
    let mut state = registry(&["A"]);
    let res = execute(&mut state, at(3), who("A"), ExecuteMsg::RemoveTopic { identifier: "none".to_string() });
    assert!(res.is_ok());
    announce(&mut state, "A", 1, "untagged", None).unwrap();
    let res = execute(&mut state, at(3), who("A"), ExecuteMsg::RemoveTopic { identifier: "".to_string() });
    assert!(res.is_ok());
}

#[test]
fn untagged_announcement_keeps_no_topic_in_use() {
    let mut state = registry(&["A"]);
    execute(
        &mut state,
        at(1),
        who("A"),
        ExecuteMsg::AddTopic {
            identifier: String::new(),
            name: String::new(),
            description: String::new(),
            color: String::new(),
        },
    )
    .unwrap();
    announce(&mut state, "A", 2, "t", None).unwrap();
    let kept = state.announcements().may_load(1);
    let res = execute(&mut state, at(3), who("A"), ExecuteMsg::RemoveTopic { identifier: String::new() }).unwrap();
    assert_eq!(pairs(&res), expect(&[("action", "remove_topic"), ("author", "A"), ("identifier", "")]));
    assert_eq!(state.topics().list().len(), 0);
    assert_eq!(state.announcements().may_load(1), kept);
    assert_eq!(kept.unwrap().topic, None);
    assert_eq!(ask(&state, None, Some(""), None), vec![1]);
}

#[test]
fn announcement_with_the_empty_topic_keeps_it_in_use() {
    let mut state = registry(&["A"]);
    add_topic(&mut state, "A", "").unwrap();
    announce(&mut state, "A", 2, "untagged", None).unwrap();
    announce(&mut state, "A", 3, "tagged", Some("")).unwrap();
    let remove =
        |state: &mut State| execute(state, at(4), who("A"), ExecuteMsg::RemoveTopic { identifier: String::new() });
    assert_eq!(remove(&mut state), Err(ContractError::InUse));
    assert_eq!(ask(&state, None, Some(""), None), vec![2, 1]);
    execute(&mut state, at(5), who("A"), ExecuteMsg::DeleteAnnouncement { id: 2 }).unwrap();
    assert!(remove(&mut state).is_ok());
    assert!(state.topics().get("").is_none());
    assert_eq!(ask(&state, None, Some(""), None), vec![1]);
}

#[test]
fn refused_announcement_needs_no_id() {
    let mut state = State::restore(
        vec!["A".to_string()],
        VoteLedger::new(),
        TopicRegistry::new(),
        announcements(),
        Some(u64::MAX),
        None,
    )
    .unwrap();
    assert_eq!(announce(&mut state, "X", 1, "t", None), Err(ContractError::Unauthorized));
    assert_eq!(announce(&mut state, "A", 1, "t", Some("none")), Err(ContractError::NotFound));
    assert_eq!(state.next_id(), Some(u64::MAX));
    assert_eq!(state.announcements().len(), 0);
}

#[test]
fn commands_by_name_match_execute() {
    let mut one = registry(&["A"]);
    let mut two = registry(&["A"]);
    let a = execute_add_topic(&mut one, at(1), who("A"), "t".to_string(), "n".to_string(), "d".to_string(), "c".to_string());
    let b = execute(
        &mut two,
        at(1),
        who("A"),
        ExecuteMsg::AddTopic {
            identifier: "t".to_string(),
            name: "n".to_string(),
            description: "d".to_string(),
            color: "c".to_string(),
        },
    );
    assert_eq!(a, b);
    let a = execute_announcement(&mut one, at(2), who("A"), "x".to_string(), "y".to_string(), Some("t".to_string()));
    let b = announce(&mut two, "A", 2, "x", Some("t"));
    assert_eq!(a.unwrap().attributes, b.unwrap().attributes);
    assert_eq!(execute_remove_topic(&mut one, at(3), who("A"), "t".to_string()), Err(ContractError::InUse));
    let a = execute_delete_announcement(&mut one, at(3), who("A"), 1).unwrap();
    assert_eq!(pairs(&a)[0], ("action".to_string(), "delete_announcement".to_string()));
    assert!(execute_remove_topic(&mut one, at(3), who("A"), "t".to_string()).is_ok());
}

#[test]
fn store_replaces_a_record_under_the_same_id() {
    let mut store: AnnouncementStore = announcements();
    let record = |id: u64, author: &str, seconds: u64| {
        Announcement::new(
            id,
            "t".to_string(),
            "c".to_string(),
            author.to_string(),
            None,
            Timestamp::from_seconds(seconds),
        )
    };
    store.save(record(1, "A", 10));
    store.save(record(2, "B", 20));
    store.save(record(1, "B", 30));
    assert_eq!(store.len(), 2);
    assert_eq!(store.indexes().author.len(), 2);
    let ids = |list: Vec<Announcement>| list.iter().map(|a| a.id).collect::<Vec<u64>>();
    assert_eq!(ids(store.by_time(None)), vec![1, 2]);
    assert_eq!(ids(store.by_author("A", None)), Vec::<u64>::new());
    assert_eq!(ids(store.by_author("B", None)), vec![1, 2]);
    assert_eq!(ids(store.by_topic("", Some(25_000_000_000))), vec![1]);
    assert_eq!(ids(store.by_topic("", Some(25))), vec![1, 2]);
    store.remove(2);
    store.remove(7);
    assert_eq!(ids(store.by_time(None)), vec![1]);
    assert_eq!(store.may_load(1).unwrap().author, "B");
}
