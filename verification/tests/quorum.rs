use announcer::batch::{process_target, sweep_expired, BatchCount};
use announcer::contract::{check_whitelist_confirmation, execute, instantiate, State};
use announcer::ledger::VoteLedger;
use announcer::msg::{BlockInfo, Env, ExecuteMsg, InstantiateMsg, MessageInfo, QueryMsg, Response};
use announcer::query::{query, query_pending, query_whitelist, QueryResponse};
use announcer::quorum::{
    cast_vote, enrol, expel, required_majority, VOTE_LIFETIME_NANOS, VOTE_LIFETIME_SECONDS,
};
use announcer::state::{Timestamp, WhitelistAction, WhitelistVote};
use announcer::store::announcements;
use announcer::topics::TopicRegistry;
use announcer::ContractError;

const WEEK: u64 = 7 * 24 * 60 * 60;

fn at(seconds: u64) -> Env {
    Env { block: BlockInfo { time: Timestamp::from_seconds(seconds) } }
}

fn by(sender: &str) -> MessageInfo {
    MessageInfo { sender: sender.to_string() }
}

fn accounts(list: &[&str]) -> Vec<String> {
    list.iter().map(|a| a.to_string()).collect()
}

fn members(list: &[&str]) -> State {
    State::restore(accounts(list), VoteLedger::new(), TopicRegistry::new(), announcements(), None, None).unwrap()
}

fn attribute(res: &Response, key: &str) -> String {
    for a in res.attributes.iter() {
        if a.key == key {
            return a.value.clone();
        }
    }
    panic!("no attribute {}", key)
}

fn counters(res: &Response) -> (String, String, String) {
    (attribute(res, "processed"), attribute(res, "confirmed"), attribute(res, "pending"))
}

fn add(state: &mut State, sender: &str, targets: &[&str], seconds: u64) -> Result<Response, ContractError> {
    execute(state, at(seconds), by(sender), ExecuteMsg::AddToWhitelist { authors: accounts(targets) })
}

fn remove(state: &mut State, sender: &str, targets: &[&str], seconds: u64) -> Result<Response, ContractError> {
    execute(state, at(seconds), by(sender), ExecuteMsg::RemoveFromWhitelist { authors: accounts(targets) })
}

#[test]
fn threshold_is_two_thirds_rounded_up() {
    assert_eq!(required_majority(0), Ok(0));
    assert_eq!(required_majority(1), Ok(1));
    assert_eq!(required_majority(2), Ok(2));
    assert_eq!(required_majority(3), Ok(2));
    assert_eq!(required_majority(4), Ok(3));
    assert_eq!(required_majority(5), Ok(4));
    assert_eq!(required_majority(6), Ok(4));
    assert_eq!(required_majority(7), Ok(5));
    assert_eq!(required_majority(100), Ok(67));
}

#[test]
fn threshold_that_does_not_fit_is_invalid_input() {
    assert_eq!(required_majority(usize::MAX), Err(ContractError::InvalidInput));
    assert_eq!(required_majority(usize::MAX / 2), Err(ContractError::InvalidInput));
    assert_eq!(required_majority(usize::MAX / 2 - 1), Ok((usize::MAX - 1) / 3));
}

#[test]
fn vote_lifetime_is_seven_days() {
    assert_eq!(VOTE_LIFETIME_SECONDS, WEEK);
    assert_eq!(VOTE_LIFETIME_NANOS, WEEK * 1_000_000_000);
}

#[test]
fn single_member_commits_at_once() {
    let mut state = members(&["A"]);
    let res = add(&mut state, "A", &["B"], 100).unwrap();
    assert_eq!(attribute(&res, "action"), "add");
    assert_eq!(attribute(&res, "author"), "B");
    assert_eq!(counters(&res), ("1".to_string(), "1".to_string(), "0".to_string()));
    assert_eq!(res.messages.len(), 0);
    assert_eq!(state.whitelist(), &accounts(&["A", "B"]));
    assert_eq!(state.votes().len(), 0);
}

#[test]
fn attributes_come_in_order() {
    let mut state = members(&["A"]);
    let res = add(&mut state, "A", &["B", "C"], 100).unwrap();
    let keys: Vec<&str> = res.attributes.iter().map(|a| a.key.as_str()).collect();
    assert_eq!(keys, vec!["action", "author", "processed", "confirmed", "pending"]);
    assert_eq!(attribute(&res, "author"), "B,C");
}

#[test]
fn threshold_follows_the_whitelist_within_a_batch() {
    let mut state = members(&["A"]);
    let res = add(&mut state, "A", &["B", "C"], 100).unwrap();
    assert_eq!(counters(&res), ("2".to_string(), "1".to_string(), "1".to_string()));
    assert_eq!(state.whitelist(), &accounts(&["A", "B"]));
    let open = query_pending(&state, at(100));
    assert_eq!(
        open,
        vec![WhitelistVote {
            confirmed: accounts(&["A"]),
            action: WhitelistAction::Add,
            expires: Timestamp::from_seconds(100 + WEEK),
        }]
    );
    assert_eq!(state.votes().get("C").unwrap().confirmed, accounts(&["A"]));
    assert!(state.votes().get("B").is_none());
}

#[test]
fn end_to_end_scenario() {
    let mut state = State::new();
    instantiate(&mut state, at(0), by("A"), InstantiateMsg {}).unwrap();
    assert_eq!(state.whitelist(), &accounts(&["A"]));

    let res = add(&mut state, "A", &["B"], 10).unwrap();
    assert_eq!(counters(&res), ("1".to_string(), "1".to_string(), "0".to_string()));
    let res = add(&mut state, "A", &["C"], 20).unwrap();
    assert_eq!(counters(&res), ("1".to_string(), "0".to_string(), "1".to_string()));
    let res = add(&mut state, "B", &["C"], 30).unwrap();
    assert_eq!(counters(&res), ("1".to_string(), "1".to_string(), "0".to_string()));
    assert_eq!(state.whitelist(), &accounts(&["A", "B", "C"]));

    let res = remove(&mut state, "A", &["A"], 40).unwrap();
    assert_eq!(attribute(&res, "action"), "remove");
    assert_eq!(counters(&res), ("1".to_string(), "0".to_string(), "1".to_string()));
    assert_eq!(state.whitelist(), &accounts(&["A", "B", "C"]));
    assert_eq!(state.votes().get("A").unwrap().confirmed, accounts(&["A"]));

    let res = remove(&mut state, "B", &["A"], 50).unwrap();
    assert_eq!(counters(&res), ("1".to_string(), "1".to_string(), "0".to_string()));
    assert_eq!(state.whitelist(), &accounts(&["B", "C"]));
    assert_eq!(state.votes().len(), 0);
}

#[test]
fn removed_account_cannot_announce() {
    let mut state = members(&["A", "B", "C"]);
    remove(&mut state, "B", &["A"], 10).unwrap();
    let res = remove(&mut state, "C", &["A"], 20).unwrap();
    assert_eq!(counters(&res), ("1".to_string(), "1".to_string(), "0".to_string()));
    assert_eq!(query_whitelist(&state, at(20)), accounts(&["B", "C"]));
    let denied = execute(
        &mut state,
        at(30),
        by("A"),
        ExecuteMsg::Announcement { title: "t".to_string(), content: "c".to_string(), topic: None },
    );
    assert_eq!(denied, Err(ContractError::Unauthorized));
    assert_eq!(state.announcements().len(), 0);
    assert_eq!(state.next_id(), None);
}

#[test]
fn same_vote_twice_counts_once() {
    let mut state = members(&["A", "B", "C"]);
    let first = remove(&mut state, "A", &["C"], 10).unwrap();
    assert_eq!(counters(&first), ("1".to_string(), "0".to_string(), "1".to_string()));
    let kept = state.votes().get("C").unwrap();
    let second = remove(&mut state, "A", &["C"], 20).unwrap();
    assert_eq!(counters(&second), ("1".to_string(), "0".to_string(), "1".to_string()));
    assert_eq!(state.votes().get("C").unwrap(), kept);
    assert_eq!(kept.confirmed, accounts(&["A"]));
    assert_eq!(kept.expires, Timestamp::from_seconds(10 + WEEK));
    assert_eq!(state.whitelist(), &accounts(&["A", "B", "C"]));

    let third = remove(&mut state, "A", &["C", "C"], 30).unwrap();
    assert_eq!(counters(&third), ("2".to_string(), "0".to_string(), "2".to_string()));
    assert_eq!(state.votes().get("C").unwrap().confirmed, accounts(&["A"]));

    let last = remove(&mut state, "B", &["C"], 40).unwrap();
    assert_eq!(counters(&last), ("1".to_string(), "1".to_string(), "0".to_string()));
    assert_eq!(state.whitelist(), &accounts(&["A", "B"]));
    let again = remove(&mut state, "B", &["C"], 50).unwrap();
    assert_eq!(counters(&again), ("0".to_string(), "0".to_string(), "1".to_string()));
    assert_eq!(state.whitelist(), &accounts(&["A", "B"]));
}

#[test]
fn proposal_lapses_after_seven_days() {
    let mut state = members(&["A", "B", "C"]);
    add(&mut state, "A", &["D"], 1000).unwrap();
    let last_open = Env { block: BlockInfo { time: Timestamp::from_nanos((1000 + WEEK) * 1_000_000_000 - 1) } };
    assert_eq!(query_pending(&state, last_open).len(), 1);
    assert_eq!(query_pending(&state, at(1000 + WEEK)).len(), 0);
    assert_eq!(query_pending(&state, at(1000 + WEEK + 1)).len(), 0);

    let res = add(&mut state, "B", &["D"], 1000 + WEEK).unwrap();
    assert_eq!(counters(&res), ("1".to_string(), "0".to_string(), "1".to_string()));
    let vote = state.votes().get("D").unwrap();
    assert_eq!(vote.confirmed, accounts(&["B"]));
    assert_eq!(vote.expires, Timestamp::from_seconds(1000 + 2 * WEEK));
    assert_eq!(state.whitelist(), &accounts(&["A", "B", "C"]));
}

#[test]
fn vote_before_the_lapse_is_counted() {
    let mut state = members(&["A", "B", "C"]);
    add(&mut state, "A", &["D"], 1000).unwrap();
    let res = add(&mut state, "B", &["D"], 1000 + WEEK - 1).unwrap();
    assert_eq!(counters(&res), ("1".to_string(), "1".to_string(), "0".to_string()));
    assert_eq!(state.whitelist(), &accounts(&["A", "B", "C", "D"]));
}

#[test]
fn batch_sweeps_lapsed_proposals_only() {
    let mut state = members(&["A", "B", "C"]);
    add(&mut state, "A", &["D"], 1000).unwrap();
    add(&mut state, "A", &["E"], 2000).unwrap();
    assert_eq!(state.votes().len(), 2);
    add(&mut state, "A", &["F"], 1000 + WEEK).unwrap();
    assert!(state.votes().get("D").is_none());
    assert!(state.votes().get("E").is_some());
    assert!(state.votes().get("F").is_some());
    assert_eq!(state.votes().len(), 2);
}

#[test]
fn sweep_keeps_what_lapses_later() {
    let mut ledger = VoteLedger::new();
    let vote = |expires: u64| WhitelistVote {
        confirmed: accounts(&["A"]),
        action: WhitelistAction::Add,
        expires: Timestamp::from_nanos(expires),
    };
    ledger.put("x".to_string(), vote(10));
    ledger.put("y".to_string(), vote(11));
    ledger.put("z".to_string(), vote(9));
    sweep_expired(&mut ledger, Timestamp::from_nanos(10));
    assert!(ledger.get("x").is_none());
    assert_eq!(ledger.get("y"), Some(vote(11)));
    assert!(ledger.get("z").is_none());
    assert_eq!(ledger.len(), 1);
}

#[test]
fn other_action_replaces_the_proposal() {
    let mut state = members(&["A", "B", "C"]);
    add(&mut state, "A", &["C"], 10).unwrap();
    assert_eq!(state.votes().get("C").unwrap().action, WhitelistAction::Add);
    let res = remove(&mut state, "B", &["C"], 20).unwrap();
    assert_eq!(counters(&res), ("1".to_string(), "0".to_string(), "1".to_string()));
    let vote = state.votes().get("C").unwrap();
    assert_eq!(vote.action, WhitelistAction::Remove);
    assert_eq!(vote.confirmed, accounts(&["B"]));
    assert_eq!(vote.expires, Timestamp::from_seconds(20 + WEEK));
}

#[test]
fn vote_on_a_target_in_its_end_state_is_kept_but_not_processed() {
    let mut state = members(&["A", "B", "C"]);
    let res = add(&mut state, "A", &["B"], 10).unwrap();
    assert_eq!(counters(&res), ("0".to_string(), "0".to_string(), "1".to_string()));
    assert_eq!(state.votes().get("B").unwrap().confirmed, accounts(&["A"]));
    let res = remove(&mut state, "A", &["Z"], 20).unwrap();
    assert_eq!(counters(&res), ("0".to_string(), "0".to_string(), "1".to_string()));
}

#[test]
fn whitelist_never_names_an_account_twice() {
    let mut state = members(&["A"]);
    let res = add(&mut state, "A", &["A"], 10).unwrap();
    assert_eq!(counters(&res), ("0".to_string(), "1".to_string(), "0".to_string()));
    assert_eq!(state.whitelist(), &accounts(&["A"]));
    assert!(State::restore(
        accounts(&["A", "B", "A"]),
        VoteLedger::new(),
        TopicRegistry::new(),
        announcements(),
        None,
        None
    )
    .is_none());
}

#[test]
fn restore_takes_sound_parts_only() {
    let vote = |confirmed: &[&str]| WhitelistVote {
        confirmed: accounts(confirmed),
        action: WhitelistAction::Remove,
        expires: Timestamp::from_seconds(9),
    };
    let mut ledger = VoteLedger::new();
    ledger.put("A".to_string(), vote(&["B", "C"]));
    let state = State::restore(accounts(&["A", "B"]), ledger, TopicRegistry::new(), announcements(), None, None);
    assert_eq!(state.unwrap().votes().get("A"), Some(vote(&["B", "C"])));

    let mut ledger = VoteLedger::new();
    ledger.put("A".to_string(), vote(&["B", "C", "B"]));
    assert!(State::restore(accounts(&["A"]), ledger, TopicRegistry::new(), announcements(), None, None).is_none());

    let record = |id: u64| {
        announcer::state::Announcement::new(
            id,
            String::new(),
            String::new(),
            "A".to_string(),
            None,
            Timestamp::from_seconds(1),
        )
    };
    let mut store = announcements();
    store.save(record(1));
    store.save(record(3));
    assert!(State::restore(accounts(&["A"]), VoteLedger::new(), TopicRegistry::new(), store, Some(2), None).is_none());
    let mut store = announcements();
    store.save(record(1));
    assert!(State::restore(accounts(&["A"]), VoteLedger::new(), TopicRegistry::new(), store, None, None).is_none());
    let mut store = announcements();
    store.save(record(1));
    store.save(record(3));
    let state = State::restore(accounts(&["A"]), VoteLedger::new(), TopicRegistry::new(), store, Some(3), None);
    assert_eq!(state.unwrap().next_id(), Some(3));
}

#[test]
fn removal_keeps_the_order_of_the_rest() {
    let mut state = members(&["A", "B", "C", "D"]);
    remove(&mut state, "A", &["B"], 10).unwrap();
    remove(&mut state, "C", &["B"], 20).unwrap();
    assert_eq!(state.whitelist(), &accounts(&["A", "B", "C", "D"]));
    remove(&mut state, "D", &["B"], 30).unwrap();
    assert_eq!(state.whitelist(), &accounts(&["A", "C", "D"]));
}

#[test]
fn refused_vote_needs_no_deadline() {
    let end = Env { block: BlockInfo { time: Timestamp::from_nanos(u64::MAX) } };
    let mut state = members(&["A", "B", "C"]);
    let vote = |state: &mut State, sender: &str, targets: &[&str]| {
        execute(state, end, by(sender), ExecuteMsg::AddToWhitelist { authors: accounts(targets) })
    };
    assert_eq!(vote(&mut state, "X", &["D"]), Err(ContractError::Unauthorized));
    assert_eq!(vote(&mut state, "A", &[]), Err(ContractError::InvalidInput));
    assert_eq!(state.votes().len(), 0);
}

#[test]
fn vote_on_an_open_proposal_needs_no_deadline() {
    let late = u64::MAX - 5;
    let open = WhitelistVote {
        confirmed: accounts(&["A"]),
        action: WhitelistAction::Add,
        expires: Timestamp::from_nanos(u64::MAX),
    };
    let mut ledger = VoteLedger::new();
    ledger.put("D".to_string(), open);
    let mut state =
        State::restore(accounts(&["A", "B", "C"]), ledger, TopicRegistry::new(), announcements(), None, None)
            .unwrap();
    let env = Env { block: BlockInfo { time: Timestamp::from_nanos(late) } };
    let res = execute(&mut state, env, by("B"), ExecuteMsg::AddToWhitelist { authors: accounts(&["D"]) }).unwrap();
    assert_eq!(counters(&res), ("1".to_string(), "1".to_string(), "0".to_string()));
    assert_eq!(state.whitelist(), &accounts(&["A", "B", "C", "D"]));
}

#[test]
fn lapsed_confirmation_is_not_counted() {
    let deadline = 1000 + WEEK;
    let lapsed = WhitelistVote {
        confirmed: accounts(&["A"]),
        action: WhitelistAction::Add,
        expires: Timestamp::from_seconds(deadline),
    };
    for now in [deadline, deadline + 1, deadline + WEEK] {
        let mut ledger = VoteLedger::new();
        ledger.put("D".to_string(), lapsed.clone());
        let mut state =
            State::restore(accounts(&["A", "B", "C"]), ledger, TopicRegistry::new(), announcements(), None, None)
                .unwrap();
        let res = add(&mut state, "B", &["D"], now).unwrap();
        assert_eq!(attribute(&res, "confirmed"), "0");
        assert_eq!(attribute(&res, "pending"), "1");
        assert_eq!(state.whitelist(), &accounts(&["A", "B", "C"]));
        assert_eq!(
            state.votes().get("D"),
            Some(WhitelistVote {
                confirmed: accounts(&["B"]),
                action: WhitelistAction::Add,
                expires: Timestamp::from_seconds(now + WEEK),
            })
        );
    }
}

#[test]
fn outsider_cannot_vote() {
    let mut state = members(&["A"]);
    assert_eq!(add(&mut state, "X", &["X"], 10), Err(ContractError::Unauthorized));
    assert_eq!(remove(&mut state, "X", &["A"], 10), Err(ContractError::Unauthorized));
    assert_eq!(add(&mut state, "X", &[], 10), Err(ContractError::Unauthorized));
    assert_eq!(state.whitelist(), &accounts(&["A"]));
    assert_eq!(state.votes().len(), 0);
}

#[test]
fn empty_batch_is_invalid_input() {
    let mut state = members(&["A", "B", "C"]);
    add(&mut state, "A", &["D"], 10).unwrap();
    assert_eq!(add(&mut state, "A", &[], 10 + WEEK), Err(ContractError::InvalidInput));
    assert_eq!(remove(&mut state, "A", &[], 10 + WEEK), Err(ContractError::InvalidInput));
    assert!(state.votes().get("D").is_some());
}

#[test]
fn check_whitelist_confirmation_matches_execute() {
    let mut one = members(&["A", "B", "C"]);
    let mut two = members(&["A", "B", "C"]);
    let a = check_whitelist_confirmation(&mut one, at(5), by("A"), accounts(&["D", "B"]), WhitelistAction::Add);
    let b = add(&mut two, "A", &["D", "B"], 5);
    assert_eq!(a, b);
    assert_eq!(counters(&a.unwrap()), ("1".to_string(), "0".to_string(), "2".to_string()));
    assert_eq!(one.votes().scan_all(), two.votes().scan_all());
}

#[test]
fn pending_is_listed_by_account() {
    let mut state = members(&["A", "B", "C"]);
    add(&mut state, "A", &["z", "m"], 10).unwrap();
    remove(&mut state, "B", &["B"], 20).unwrap();
    let keys: Vec<String> = state.votes().scan_all().into_iter().map(|e| e.key).collect();
    assert_eq!(keys, accounts(&["B", "m", "z"]));
    match query(&state, at(30), QueryMsg::Pending {}) {
        QueryResponse::Pending(list) => {
            assert_eq!(list.len(), 3);
            assert_eq!(list[0].action, WhitelistAction::Remove);
            assert_eq!(list[0].confirmed, accounts(&["B"]));
            assert_eq!(list[1].action, WhitelistAction::Add);
            assert_eq!(list[2].expires, Timestamp::from_seconds(10 + WEEK));
        }
        other => panic!("unexpected answer {:?}", other),
    }
    match query(&state, at(30), QueryMsg::Whitelist {}) {
        QueryResponse::Whitelist(list) => assert_eq!(list, accounts(&["A", "B", "C"])),
        other => panic!("unexpected answer {:?}", other),
    }
}

#[test]
fn cast_vote_builds_on_an_open_proposal() {
    let now = Timestamp::from_nanos(50);
    let fresh = cast_vote(None, "A", WhitelistAction::Add, now);
    assert_eq!(fresh.confirmed, accounts(&["A"]));
    assert_eq!(fresh.action, WhitelistAction::Add);
    assert_eq!(fresh.expires, Timestamp::from_nanos(50 + VOTE_LIFETIME_NANOS));

    let open = WhitelistVote {
        confirmed: accounts(&["A"]),
        action: WhitelistAction::Add,
        expires: Timestamp::from_nanos(51),
    };
    let joined = cast_vote(Some(open.clone()), "B", WhitelistAction::Add, now);
    assert_eq!(joined.confirmed, accounts(&["A", "B"]));
    assert_eq!(joined.expires, Timestamp::from_nanos(51));
    let same = cast_vote(Some(open.clone()), "A", WhitelistAction::Add, now);
    assert_eq!(same, open);

    let lapsed = WhitelistVote { expires: now, ..open.clone() };
    let restarted = cast_vote(Some(lapsed), "B", WhitelistAction::Add, now);
    assert_eq!(restarted.confirmed, accounts(&["B"]));
    assert_eq!(restarted.expires, Timestamp::from_nanos(50 + VOTE_LIFETIME_NANOS));

    let switched = cast_vote(Some(open), "B", WhitelistAction::Remove, now);
    assert_eq!(switched.confirmed, accounts(&["B"]));
    assert_eq!(switched.action, WhitelistAction::Remove);
}

#[test]
fn enrol_and_expel() {
    let mut list = accounts(&["A", "B"]);
    enrol(&mut list, "C");
    assert_eq!(list, accounts(&["A", "B", "C"]));
    enrol(&mut list, "A");
    assert_eq!(list, accounts(&["A", "B", "C"]));
    assert_eq!(expel(&list, "B"), accounts(&["A", "C"]));
    assert_eq!(expel(&list, "Z"), accounts(&["A", "B", "C"]));
    assert_eq!(expel(&accounts(&["A", "A"]), "A"), accounts(&[]));
}

#[test]
fn process_target_counts_and_commits() {
    let mut whitelist = accounts(&["A", "B", "C"]);
    let mut ledger = VoteLedger::new();
    let mut count = BatchCount { processed: 0, confirmed: 0, pending: 0 };
    let now = Timestamp::from_seconds(1);
    process_target(&mut whitelist, &mut ledger, &mut count, "A", "D", WhitelistAction::Add, now).unwrap();
    assert_eq!(count, BatchCount { processed: 1, confirmed: 0, pending: 1 });
    process_target(&mut whitelist, &mut ledger, &mut count, "B", "D", WhitelistAction::Add, now).unwrap();
    assert_eq!(count, BatchCount { processed: 2, confirmed: 1, pending: 1 });
    assert_eq!(whitelist, accounts(&["A", "B", "C", "D"]));
    assert_eq!(ledger.len(), 0);
}
