use rustesge::actions::Action;
use rustesge::actor::Actor;
use rustesge::base::{gen_display_current_room_action, gen_esge_package, gen_move_player_action,
    BaseGame};
use rustesge::genesis::{empty_world, gen_add_room_action, gen_exit_action, initial_genesis,
    gen_rename_room_action, gen_redescribe_room_action};
use rustesge::ingame::Ingame;
use rustesge::room::Room;

fn two_room_world() -> Ingame {
    let mut room1 = Room::new("room1").with_name("Room1").with_description("This is room 1");
    let mut room2 = Room::new("room2").with_name("Room2").with_description("This is room 2");
    room1.exits.push(("out".to_string(), "room2".to_string()));
    room2.exits.push(("in".to_string(), "room1".to_string()));
    let lalala = Actor {
        id: "lalala".to_string(),
        name: "Lalala".to_string(),
        description: "Lalala the choco elfin.".to_string(),
    };
    room1.actors.push("lalala".to_string());
    let state = BaseGame { player: "lalala".to_string() };
    let storage = rustesge::storage::Storage::new("storage")
        .with_item(room1)
        .with_item(room2)
        .with_item(lalala)
        .with_item(state);
    Ingame::with_storage(storage)
}

#[test]
fn player_and_room_are_found() {
    let ingame = two_room_world();
    let player = ingame.get_player().expect("the base game names the player");
    assert_eq!(player.id, "lalala");
    assert_eq!(player.name, "Lalala");
    let room = ingame.room_of_player().expect("the player stands in room1");
    assert_eq!(room.id, "room1");
    let exits = ingame.exits_in_room(&room);
    assert_eq!(exits.len(), 1);
    assert_eq!(exits[0].0, "out");
    assert_eq!(exits[0].1.id, "room2");
    let actors = ingame.actors_in_room(&room);
    assert_eq!(actors.len(), 1);
    assert_eq!(actors[0].id, "lalala");
}

#[test]
fn missing_player_is_reported() {
    let ingame = Ingame::new("empty");
    let err = ingame.get_player().expect_err("no base game record exists");
    assert_eq!(err.message(), "Could not find base_game");
    let err = ingame.room_of_player().expect_err("no room holds the player");
    assert_eq!(err.message(), "Could not find base_game");
}

#[test]
fn moving_the_player_changes_rooms_and_prints_the_destination() {
    let mut ingame = two_room_world();
    ingame.add_one_time_action(gen_move_player_action("out"));
    ingame.step();
    assert_eq!(ingame.get_response("err"), "");
    let room = ingame.room_of_player().expect("the player moved");
    assert_eq!(room.id, "room2");
    let out = ingame.get_response("out");
    assert!(out.starts_with("Room: Room2\nThis is room 2\n"));
    assert!(out.contains("Directions: in"));
}

#[test]
fn moving_through_a_missing_exit_fails() {
    let mut ingame = two_room_world();
    ingame.add_one_time_action(gen_move_player_action("nowhere"));
    ingame.step();
    assert_eq!(ingame.get_response("err"), "Could not find exit");
    let room = ingame.room_of_player().expect("the player did not move");
    assert_eq!(room.id, "room1");
}

#[test]
fn display_action_prints_the_current_room() {
    let mut ingame = two_room_world();
    ingame.add_one_time_action(gen_display_current_room_action());
    ingame.step();
    assert_eq!(
        ingame.get_response("out"),
        "Room: Room1\nThis is room 1\nDirections: out \n"
    );
}

#[test]
fn genesis_world_holds_the_player() {
    let storage = initial_genesis("God");
    let ingame = Ingame::with_storage(storage);
    let player = ingame.get_player().expect("genesis names the player");
    assert_eq!(player.id, "player-actor");
    assert_eq!(player.name, "God");
    let room = ingame.room_of_player().expect("the genesis room holds the player");
    assert_eq!(room.id, "genesis-room");
    assert_eq!(room.name, "Genesis");
}

#[test]
fn empty_world_round_trips() {
    let world = empty_world("Someone", "w1");
    let text = world.serialize();
    let back = rustesge::storage::Storage::deserialize(text.as_str()).expect("parses");
    let ingame = Ingame::with_storage(back);
    let room = ingame.room_of_player().expect("init room holds the player");
    assert_eq!(room.id, "init-room");
    assert_eq!(room.description, "You are in an empty worly");
}

#[test]
fn world_building_actions_work_together() {
    let mut ingame = Ingame::with_storage(initial_genesis("God"));
    ingame.add_one_time_action(gen_add_room_action(
        "cave",
        Some("Cave".to_string()),
        Some("A dark cave".to_string()),
    ));
    ingame.step();
    assert_eq!(ingame.get_response("err"), "");
    ingame.add_one_time_action(gen_exit_action("down", "cave"));
    ingame.step();
    assert_eq!(ingame.get_response("err"), "");
    ingame.add_one_time_action(gen_rename_room_action("Eden"));
    ingame.step();
    ingame.add_one_time_action(gen_redescribe_room_action("The first garden."));
    ingame.step();
    assert_eq!(ingame.get_response("err"), "");
    let room = ingame.room_of_player().expect("still in the genesis room");
    assert_eq!(room.name, "Eden");
    assert_eq!(room.description, "The first garden.");
    assert_eq!(room.exit_target("down"), Some(&"cave".to_string()));
    ingame.add_one_time_action(gen_move_player_action("down"));
    ingame.step();
    let room = ingame.room_of_player().expect("moved to the cave");
    assert_eq!(room.id, "cave");
    assert_eq!(room.name, "Cave");
}

#[test]
fn exit_action_creates_the_target_room_when_missing() {
    let mut ingame = Ingame::with_storage(initial_genesis("God"));
    ingame.add_one_time_action(gen_exit_action("up", "sky"));
    ingame.step();
    assert_eq!(ingame.get_response("err"), "");
    let sky: Option<Room> = ingame.get_item("sky");
    assert!(sky.is_some());
}

#[test]
fn init_packages_registers_the_base_package() {
    let storage = initial_genesis("God");
    let ingame = Ingame::init_packages(storage, vec![gen_esge_package()])
        .expect("the base package is always plausible");
    let mut ingame = ingame;
    // The package's initial action runs without failing.
    ingame.step();
    assert_eq!(ingame.get_response("err"), "");
}

#[test]
fn add_room_action_commits_the_room() {
    let mut ingame = Ingame::new("w");
    let room = Room::new("r9").with_name("Nine");
    ingame.add_one_time_action(Action::AddRoom { room });
    ingame.step();
    let back: Option<Room> = ingame.get_item("r9");
    assert_eq!(back.expect("the room was stored").name, "Nine");
}
