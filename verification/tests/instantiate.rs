use announcer::contract::{instantiate, State};
use announcer::msg::{BlockInfo, Env, InstantiateMsg, MessageInfo};
use announcer::state::Timestamp;

fn mock_env() -> Env {
    Env { block: BlockInfo { time: Timestamp::from_nanos(1_571_797_419_879_305_533) } }
}

fn mock_info(sender: &str) -> MessageInfo {
    MessageInfo { sender: sender.to_string() }
}

#[test]
fn successful_instantiation() {
    let mut state = State::new();
    let instantiate_msg = InstantiateMsg {};

    let info = mock_info("sender");
    let res = instantiate(&mut state, mock_env(), info, instantiate_msg).unwrap();
    assert_eq!(0, res.messages.len());
    assert_eq!(state.whitelist(), &vec!["sender".to_string()]);
}
