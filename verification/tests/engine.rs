use rustesge::actions::Action;
use rustesge::ingame::Ingame;

#[test]
fn simple_action_test() {
    let mut ingame = Ingame::new("storage");
    let action = Action::Append { channel: "out".to_string(), text: "test".to_string() };
    assert_eq!("", ingame.get_response("out"));
    ingame.add_action(action);
    assert_eq!("", ingame.get_response("out"));
    ingame.step();
    assert_eq!("test", ingame.get_response("out"));
    ingame.step();
    assert_eq!("test", ingame.get_response("out"));
}

#[test]
fn remove_action_test() {
    let mut ingame = Ingame::new("storage");
    let action = Action::RemoveSelfThenAppend { channel: "out".to_string(), text: "test".to_string() };
    assert_eq!("", ingame.get_response("out"));
    ingame.add_action(action);
    assert_eq!("", ingame.get_response("out"));
    ingame.step();
    assert_eq!("test", ingame.get_response("out"));
    ingame.step();
    assert_eq!("", ingame.get_response("out"));
}

#[test]
fn one_time_action_test() {
    let mut ingame = Ingame::new("storage");
    let action = Action::Append { channel: "out".to_string(), text: "test".to_string() };
    assert_eq!("", ingame.get_response("out"));
    ingame.add_one_time_action(action);
    assert_eq!("", ingame.get_response("out"));
    ingame.step();
    assert_eq!("test", ingame.get_response("out"));
    ingame.step();
    assert_eq!("", ingame.get_response("out"));
}

#[test]
fn persistent_addition_waits_for_next_tick() {
    // An action scheduled during tick N's persistent phase must not run
    // before tick N+1.
    let mut ingame = Ingame::new("storage");
    let inner = Action::Append { channel: "out".to_string(), text: "b" .to_string() };
    let outer = Action::AddPersistent(Box::new(inner));
    let h = ingame.add_action(outer);
    ingame.step();
    // The adder ran; the added action did not run yet.
    assert_eq!("", ingame.get_response("out"));
    // Stop the adder so only the added action keeps running.
    ingame.remove_action(h);
    ingame.step();
    assert_eq!("b", ingame.get_response("out"));
    ingame.step();
    assert_eq!("b", ingame.get_response("out"));
}

#[test]
fn removing_twice_and_removing_unknown_handles_is_harmless() {
    let mut ingame = Ingame::new("storage");
    let action = Action::Append { channel: "out".to_string(), text: "x".to_string() };
    let h = ingame.add_action(action);
    ingame.step();
    assert_eq!("x", ingame.get_response("out"));
    ingame.remove_action(h);
    ingame.remove_action(h);
    ingame.remove_action(h + 17);
    ingame.step();
    assert_eq!("", ingame.get_response("out"));
}

#[test]
fn one_shot_added_by_one_shot_waits_for_next_tick() {
    let mut ingame = Ingame::new("storage");
    let inner = Action::Append { channel: "out".to_string(), text: "late".to_string() };
    ingame.add_one_time_action(Action::AddOneShot(Box::new(inner)));
    ingame.step();
    assert_eq!("", ingame.get_response("out"));
    ingame.step();
    assert_eq!("late", ingame.get_response("out"));
    ingame.step();
    assert_eq!("", ingame.get_response("out"));
}

#[test]
fn channels_are_isolated_and_cleared() {
    let mut ingame = Ingame::new("storage");
    ingame.add_one_time_action(Action::Append { channel: "out".to_string(), text: "hello".to_string() });
    ingame.step();
    // Writing to "out" did not touch "err".
    assert_eq!("hello", ingame.get_response("out"));
    assert_eq!("", ingame.get_response("err"));
    // A tick that writes nothing clears what earlier ticks wrote.
    ingame.step();
    assert_eq!("", ingame.get_response("out"));
    assert_eq!("", ingame.get_response("err"));
}

#[test]
fn failing_action_does_not_stop_the_others() {
    let mut ingame = Ingame::new("storage");
    ingame.add_action(Action::Fail { msg: "boom".to_string() });
    ingame.add_action(Action::Append { channel: "out".to_string(), text: "ok".to_string() });
    ingame.step();
    assert_eq!("boom", ingame.get_response("err"));
    assert_eq!("ok", ingame.get_response("out"));
}
