use rustesge::actor::Actor;
use rustesge::base::{gen_move_actor_action, BaseGame};
use rustesge::ingame::{Ingame, MutIngame};
use rustesge::item::{Item, Itemizeable};
use rustesge::meta::Meta;
use rustesge::room::Room;
use rustesge::storage::Storage;

#[test]
fn meta_accessors_match_the_variant() {
    let mut m = Meta::Text("hello".to_string());
    assert_eq!(m.text_ref(), Some(&"hello".to_string()));
    assert!(m.binary_ref().is_none());
    assert!(m.textvec_ref().is_none());
    assert!(m.int_val().is_none());
    if let Some(t) = m.text_mut() {
        t.push('!');
    }
    assert_eq!(m.text_ref(), Some(&"hello!".to_string()));
    let mut n = Meta::Int(7);
    assert_eq!(n.int_val(), Some(7));
    if let Some(i) = n.int_mut() {
        *i = 8;
    }
    assert_eq!(n.int_val(), Some(8));
    let mut b = Meta::Binary(vec![1, 2]);
    if let Some(bytes) = b.binary_mut() {
        bytes.push(3);
    }
    assert_eq!(b.binary_ref(), Some(&vec![1u8, 2u8, 3u8]));
    let mut v = Meta::TextVec(vec!["x".to_string()]);
    if let Some(list) = v.textvec_mut() {
        list.push("y".to_string());
    }
    assert_eq!(v.textvec_ref(), Some(&vec!["x".to_string(), "y".to_string()]));
}

#[test]
fn item_defaults_cover_missing_and_mismatched_fields() {
    let mut item = Item::new("thing".to_string(), "t1".to_string());
    item.meta_set("num", Meta::Int(3));
    assert_eq!(item.meta_text_or_default("missing", "fallback"), "fallback");
    assert_eq!(item.meta_text_or_default("num", "fallback"), "fallback");
    let empty: Vec<String> = Vec::new();
    assert_eq!(item.meta_textvec_or_default("missing", &empty), &empty[..]);
}

#[test]
fn integer_extremes_survive_the_text_form() {
    let mut item = Item::new("thing".to_string(), "t1".to_string());
    item.meta_set("low", Meta::Int(i32::MIN));
    item.meta_set("high", Meta::Int(i32::MAX));
    let store = Storage::new("s").with_item(item);
    let text = store.serialize();
    let back = Storage::deserialize(text.as_str()).expect("extreme integers parse");
    let item: Item = back.get_item("t1").expect("the record is kept");
    match item.meta_get("low") {
        Some(Meta::Int(i)) => assert_eq!(*i, i32::MIN),
        _ => panic!("low must stay an integer"),
    }
    match item.meta_get("high") {
        Some(Meta::Int(i)) => assert_eq!(*i, i32::MAX),
        _ => panic!("high must stay an integer"),
    }
}

#[test]
fn actor_and_room_round_trip_through_records() {
    let actor = Actor {
        id: "a1".to_string(),
        name: "Someone".to_string(),
        description: "a person".to_string(),
    };
    let item = actor.to_item();
    let back = Actor::from_item(&item).expect("an actor record parses");
    assert_eq!(back.id, "a1");
    assert_eq!(back.name, "Someone");
    assert_eq!(back.description, "a person");

    let mut room = Room::new("r1").with_name("R").with_description("D");
    room.items.push("coin".to_string());
    room.actors.push("a1".to_string());
    room.exits.push(("north".to_string(), "r2".to_string()));
    let item = room.to_item();
    let back = Room::from_item(&item).expect("a room record parses");
    assert_eq!(back.id, "r1");
    assert_eq!(back.name, "R");
    assert_eq!(back.description, "D");
    assert_eq!(back.items, vec!["coin".to_string()]);
    assert_eq!(back.actors, vec!["a1".to_string()]);
    assert_eq!(back.exits, vec![("north".to_string(), "r2".to_string())]);

    // A record of another kind parses as neither.
    let other = Item::new("chair".to_string(), "c1".to_string());
    assert!(Actor::from_item(&other).is_none());
    assert!(Room::from_item(&other).is_none());
    assert!(BaseGame::from_item(&other).is_some());
}

#[test]
fn move_actor_action_ignores_failure() {
    let mut ingame = Ingame::new("w");
    let ghostly = Actor {
        id: "nobody".to_string(),
        name: "Nobody".to_string(),
        description: "".to_string(),
    };
    ingame.add_one_time_action(gen_move_actor_action(&ghostly, "north"));
    ingame.step();
    // The move fails (no room holds the actor), but the action reports
    // nothing: the failure is swallowed by design.
    assert_eq!(ingame.get_response("err"), "");
}

#[test]
fn warping_moves_an_actor_between_rooms() {
    let mut room1 = Room::new("r1");
    let room2 = Room::new("r2");
    let actor = Actor { id: "a1".to_string(), name: "A".to_string(), description: "".to_string() };
    room1.actors.push("a1".to_string());
    let storage = Storage::new("w")
        .with_item(room1)
        .with_item(room2.dup())
        .with_item(actor.dup());
    let mut mi = MutIngame { ingame: Ingame::with_storage(storage) };
    mi.warp_actor(&actor, room2);
    let r1: Room = mi.get_item("r1").expect("r1 stays");
    let r2: Room = mi.get_item("r2").expect("r2 stays");
    assert!(r1.actors.is_empty());
    assert_eq!(r2.actors, vec!["a1".to_string()]);
    let held = mi.ingame.room_of_actor(&actor).expect("a room holds the actor");
    assert_eq!(held.id, "r2");
}

#[test]
fn items_placed_in_a_room_are_listed() {
    let mut room = Room::new("r1");
    let actor = Actor { id: "p".to_string(), name: "P".to_string(), description: "".to_string() };
    room.actors.push("p".to_string());
    let storage = Storage::new("w")
        .with_item(room)
        .with_item(actor)
        .with_item(BaseGame { player: "p".to_string() });
    let mut mi = MutIngame { ingame: Ingame::with_storage(storage) };
    let mut coin = Item::new("coin".to_string(), "coin1".to_string());
    coin.meta_set("value", Meta::Int(10));
    mi.insert_item_in_player_room(&coin).expect("the player stands in r1");
    let room: Room = mi.get_item("r1").expect("r1 stays");
    assert_eq!(room.items, vec!["coin1".to_string()]);
    let listed = mi.ingame.items_in_room(&room);
    assert_eq!(listed.len(), 1);
    assert_eq!(listed[0].item_id, "coin1");
    // An id with no record behind it is skipped, not an error.
    let mut with_ghost = room.dup();
    with_ghost.items.push("missing".to_string());
    let listed = mi.ingame.items_in_room(&with_ghost);
    assert_eq!(listed.len(), 1);
}
