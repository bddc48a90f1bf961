use rustesge::item::{Item, Itemizeable};
use rustesge::meta::Meta;
use rustesge::storage::Storage;
use rustesge::ingame::Ingame;

fn sample_store() -> Storage {
    let mut item = Item::new("actor".to_string(), "a1".to_string());
    item.meta_set("name", Meta::Text("Lalala".to_string()));
    item.meta_set("badge\"\\quote", Meta::Text("line\nbreak".to_string()));
    item.meta_set("blob", Meta::Binary(vec![0u8, 17u8, 255u8]));
    item.meta_set("tags", Meta::TextVec(vec!["a".to_string(), "".to_string()]));
    item.meta_set("level", Meta::Int(-42));
    let mut second = Item::new("room".to_string(), "r1".to_string());
    second.meta_set("empty_list", Meta::TextVec(Vec::new()));
    second.meta_set("zero", Meta::Int(0));
    Storage::new("world").with_item(item).with_item(second)
}

#[test]
fn storage_round_trips_through_text() {
    let store = sample_store();
    let text = store.serialize();
    let back = Storage::deserialize(text.as_str()).expect("a serialized store must parse");
    // Same id, same records, field for field, including the empty list and
    // the zero integer.
    assert_eq!(back.serialize(), text);
    assert_eq!(back.id(), "world");
    assert_eq!(back.len(), 2);
    let item: Item = back.get_item("a1").expect("record a1 is kept");
    assert_eq!(item.item_type, "actor");
    assert_eq!(item.meta_text_or_default("name", ""), "Lalala");
    assert_eq!(item.meta_text_or_default("badge\"\\quote", ""), "line\nbreak");
    match item.meta_get("blob") {
        Some(Meta::Binary(b)) => assert_eq!(b, &vec![0u8, 17u8, 255u8]),
        _ => panic!("blob must stay binary"),
    }
    match item.meta_get("tags") {
        Some(Meta::TextVec(v)) => assert_eq!(v, &vec!["a".to_string(), "".to_string()]),
        _ => panic!("tags must stay a text list"),
    }
    match item.meta_get("level") {
        Some(Meta::Int(i)) => assert_eq!(*i, -42),
        _ => panic!("level must stay an integer"),
    }
    let second: Item = back.get_item("r1").expect("record r1 is kept");
    match second.meta_get("empty_list") {
        Some(Meta::TextVec(v)) => assert!(v.is_empty()),
        _ => panic!("the empty list must not be dropped"),
    }
    match second.meta_get("zero") {
        Some(Meta::Int(i)) => assert_eq!(*i, 0),
        _ => panic!("the zero integer must not be dropped"),
    }
}

#[test]
fn empty_storage_round_trips() {
    let store = Storage::new("");
    let text = store.serialize();
    let back = Storage::deserialize(text.as_str()).expect("an empty store must parse");
    assert_eq!(back.len(), 0);
    assert_eq!(back.id(), "");
}

#[test]
fn malformed_text_is_rejected() {
    assert!(Storage::deserialize("").is_none());
    assert!(Storage::deserialize("{}").is_none());
    assert!(Storage::deserialize("not json at all").is_none());
    let good = sample_store().serialize();
    let mut broken = good.clone();
    broken.pop();
    assert!(Storage::deserialize(broken.as_str()).is_none());
}

#[test]
fn ingame_load_is_all_or_nothing() {
    let mut ingame = Ingame::new("start");
    let text = sample_store().serialize();
    assert!(ingame.from_json(text.as_str()).is_ok());
    let item: Option<Item> = ingame.get_item("a1");
    assert!(item.is_some());
    // A malformed document leaves the loaded world untouched.
    assert!(ingame.from_json("{broken").is_err());
    let item: Option<Item> = ingame.get_item("a1");
    assert!(item.is_some());
    assert_eq!(ingame.serialize(), text);
}

#[test]
fn insert_merges_fields_by_key() {
    // A record holds name "A" and desc "d"; a record rendering only a new
    // name overwrites the name and preserves the unrelated field.
    let mut first = Item::new("room".to_string(), "r1".to_string());
    first.meta_set("name", Meta::Text("A".to_string()));
    first.meta_set("desc", Meta::Text("d".to_string()));
    let mut update = Item::new("room".to_string(), "r1".to_string());
    update.meta_set("name", Meta::Text("B".to_string()));
    let mut store = Storage::new("s");
    store.insert(&first);
    store.insert(&update);
    let merged: Item = store.get_item("r1").expect("the record stays");
    assert_eq!(merged.meta_text_or_default("name", ""), "B");
    assert_eq!(merged.meta_text_or_default("desc", ""), "d");
    assert_eq!(store.len(), 1);
}

#[test]
fn nested_world_survives_storage_in_storage() {
    let inner = sample_store();
    let outer = Storage::new("outer").with_item(inner);
    let text = outer.serialize();
    let back = Storage::deserialize(text.as_str()).expect("outer world parses");
    let inner_back: Storage = back.get_item("world").expect("inner world is kept");
    assert_eq!(inner_back.serialize(), sample_store().serialize());
}
