//! Adds rooms to the game structure.

use vstd::prelude::*;
use crate::assoc::unique_keys;
use crate::codec::{deserialize_hashmap, parse_strmap_doc, ser_strmap, serialize_hashmap,
    lemma_strmap_round_trip};
use crate::item::{Item, ItemV, Itemizeable, lemma_merge_meta_into_frame, lemma_merge_meta_into_get,
    merge_meta_into};
use crate::meta::{Meta, MetaV};
use crate::response::channels_view;
use crate::strutil::{str_copy, str_eq};

verus! {

/// Mathematical model of a room.
pub struct RoomV {
    /// The internal identifier.
    pub id: Seq<char>,
    /// The name of the room.
    pub name: Seq<char>,
    /// The description of the room.
    pub description: Seq<char>,
    /// Item identifiers of the room.
    pub items: Seq<Seq<char>>,
    /// Actor identifiers in the room.
    pub actors: Seq<Seq<char>>,
    /// Exit labels and the room identifier behind each.
    pub exits: Seq<(Seq<char>, Seq<char>)>,
}

impl RoomV {
    /// Each exit label occurs once.
    pub open spec fn wf(self) -> bool {
        unique_keys(self.exits)
    }
}

/// Introduces rooms to storageable objects.
#[derive(Debug)]
pub struct Room {
    /// The internal identifier.
    pub id: String,
    /// The name of the room.
    pub name: String,
    /// The description of the room.
    pub description: String,
    /// Item identifier of the room.
    pub items: Vec<String>,
    /// Actor identifier in the room.
    pub actors: Vec<String>,
    /// Exits and the identifier of the room behind each.
    pub exits: Vec<(String, String)>,
}

impl View for Room {
    type V = RoomV;

    open spec fn view(&self) -> RoomV {
        RoomV {
            id: self.id@,
            name: self.name@,
            description: self.description@,
            items: self.items.deep_view(),
            actors: self.actors.deep_view(),
            exits: channels_view(self.exits@),
        }
    }
}

/// A fresh empty string vector, with its empty model.
fn strs_empty() -> (r: Vec<String>)
    ensures
        r.deep_view() == Seq::<Seq<char>>::empty(),
{
    let r: Vec<String> = Vec::new();
    proof {
        assert(r.deep_view() =~= Seq::<Seq<char>>::empty());
    }
    r
}

/// Copy a string vector; the copy models the same strings.
pub fn strs_dup(v: &Vec<String>) -> (r: Vec<String>)
    ensures
        r.deep_view() == v.deep_view(),
{
    let mut c: Vec<String> = Vec::new();
    let n = v.len();
    let mut i: usize = 0;
    while i < n
        invariant
            n == v@.len(),
            i <= n,
            c@.len() == i,
            forall|j: int| 0 <= j < i ==> (#[trigger] c@[j])@ == v@[j]@,
        decreases n - i,
    {
        let x = v[i].clone();
        c.push(x);
        i = i + 1;
    }
    proof {
        assert(c.deep_view() =~~= v.deep_view());
    }
    c
}

/// Copy a string pair vector; the copy models the same pairs.
pub fn pairs_dup(v: &Vec<(String, String)>) -> (r: Vec<(String, String)>)
    ensures
        channels_view(r@) == channels_view(v@),
{
    let mut c: Vec<(String, String)> = Vec::new();
    let n = v.len();
    let mut i: usize = 0;
    while i < n
        invariant
            n == v@.len(),
            i <= n,
            c@.len() == i,
            forall|j: int|
                0 <= j < i ==> (#[trigger] c@[j]).0@ == v@[j].0@ && c@[j].1@ == v@[j].1@,
        decreases n - i,
    {
        let x = (v[i].0.clone(), v[i].1.clone());
        c.push(x);
        i = i + 1;
    }
    proof {
        crate::response::lemma_channels_view(c@);
        crate::response::lemma_channels_view(v@);
        assert(channels_view(c@) =~~= channels_view(v@));
    }
    c
}

impl Room {
    /// Add a new room with the given id; every other part starts empty.
    pub fn new(id: &str) -> (r: Self)
        ensures
            r@ == (RoomV {
                id: id@,
                name: Seq::<char>::empty(),
                description: Seq::<char>::empty(),
                items: Seq::<Seq<char>>::empty(),
                actors: Seq::<Seq<char>>::empty(),
                exits: Seq::<(Seq<char>, Seq<char>)>::empty(),
            }),
            r@.wf(),
    {
        let r = Room {
            id: str_copy(id),
            name: String::new(),
            description: String::new(),
            items: Vec::new(),
            actors: Vec::new(),
            exits: Vec::new(),
        };
        proof {
            assert(r.items.deep_view() =~= Seq::<Seq<char>>::empty());
            assert(r.actors.deep_view() =~= Seq::<Seq<char>>::empty());
            assert(channels_view(r.exits@) =~= Seq::<(Seq<char>, Seq<char>)>::empty());
        }
        r
    }

    /// Consumes the room and returns a new one with the given name.
    ///
    /// Use for initialization.
    pub fn with_name(self, name: &str) -> (r: Self)
        ensures
            r@ == (RoomV { name: name@, ..self@ }),
    {
        let mut r = self;
        r.name = str_copy(name);
        r
    }

    /// Consumes the room and returns a new one with the given description.
    ///
    /// Use for initialization.
    pub fn with_description(self, description: &str) -> (r: Self)
        ensures
            r@ == (RoomV { description: description@, ..self@ }),
    {
        let mut r = self;
        r.description = str_copy(description);
        r
    }

    /// Copy this room; the copy models the same room.
    pub fn dup(&self) -> (r: Room)
        ensures
            r@ == self@,
    {
        Room {
            id: self.id.clone(),
            name: self.name.clone(),
            description: self.description.clone(),
            items: strs_dup(&self.items),
            actors: strs_dup(&self.actors),
            exits: pairs_dup(&self.exits),
        }
    }

    /// Bind the exit labelled `label` to the room `target`, overwriting any
    /// earlier binding of the label.
    pub fn set_exit(&mut self, label: &str, target: &str)
        requires
            old(self)@.wf(),
        ensures
            final(self)@ == (RoomV {
                exits: crate::assoc::assoc_set(old(self)@.exits, label@, target@),
                ..old(self)@
            }),
            final(self)@.wf(),
    {
        let ghost entries = channels_view(self.exits@);
        proof {
            crate::response::lemma_channels_view(self.exits@);
            crate::assoc::lemma_set_unique(entries, label@, target@);
        }
        let n = self.exits.len();
        let mut i: usize = 0;
        while i < n
            invariant
                n == self.exits@.len(),
                i <= n,
                *self == *old(self),
                old(self)@.wf(),
                entries == channels_view(self.exits@),
                forall|j: int| 0 <= j < i ==> channels_view(self.exits@)[j].0 != label@,
            decreases n - i,
        {
            if str_eq(self.exits[i].0.as_str(), label) {
                proof {
                    crate::assoc::lemma_set_found(entries, label@, target@, i as int);
                }
                self.exits.set(i, (str_copy(label), str_copy(target)));
                proof {
                    crate::response::lemma_channels_view(self.exits@);
                    assert(channels_view(self.exits@) =~= entries.update(
                        i as int,
                        (label@, target@),
                    ));
                }
                return ;
            }
            proof {
                assert(channels_view(self.exits@)[i as int].0 == self.exits@[i as int].0@);
            }
            i = i + 1;
        }
        proof {
            crate::assoc::lemma_set_absent(entries, label@, target@);
        }
        self.exits.push((str_copy(label), str_copy(target)));
        proof {
            crate::response::lemma_channels_view(self.exits@);
            assert(channels_view(self.exits@) =~= entries.push((label@, target@)));
        }
    }

    /// The identifier of the room behind the exit labelled `label`, if any.
    pub fn exit_target(&self, label: &str) -> (r: Option<&String>)
        ensures
            match r {
                Some(t) => crate::assoc::assoc_get(self@.exits, label@) == Some(t@),
                None => crate::assoc::assoc_get(self@.exits, label@) is None,
            },
    {
        proof {
            crate::response::lemma_channels_view(self.exits@);
        }
        let n = self.exits.len();
        let mut i: usize = 0;
        while i < n
            invariant
                n == self.exits@.len(),
                i <= n,
                forall|j: int| 0 <= j < i ==> channels_view(self.exits@)[j].0 != label@,
            decreases n - i,
        {
            if str_eq(self.exits[i].0.as_str(), label) {
                proof {
                    crate::assoc::lemma_get_first_found(
                        channels_view(self.exits@),
                        label@,
                        i as int,
                    );
                }
                return Some(&self.exits[i].1);
            }
            proof {
                assert(channels_view(self.exits@)[i as int].0 == self.exits@[i as int].0@);
            }
            i = i + 1;
        }
        proof {
            crate::assoc::lemma_get_some_iff(channels_view(self.exits@), label@);
        }
        None
    }
}

/// The field list a room renders: name, description, item and actor lists,
/// and its exits in their written form.
pub open spec fn room_meta(v: RoomV) -> Seq<(Seq<char>, MetaV)> {
    seq![
        ("name"@, MetaV::Text(v.name)),
        ("desc"@, MetaV::Text(v.description)),
        ("items"@, MetaV::TextVec(v.items)),
        ("actors"@, MetaV::TextVec(v.actors)),
        ("exits"@, MetaV::Text(ser_strmap(v.exits))),
    ]
}

/// The five rendered field names are pairwise distinct, and the values are
/// in range.
pub proof fn lemma_room_meta_wf(v: RoomV)
    ensures
        unique_keys(room_meta(v)),
        forall|i: int| 0 <= i < room_meta(v).len() ==> (#[trigger] room_meta(v)[i].1).wf(),
{
    reveal_strlit("name");
    reveal_strlit("desc");
    reveal_strlit("items");
    reveal_strlit("actors");
    reveal_strlit("exits");
    assert("name"@.len() == 4 && "desc"@.len() == 4 && "items"@.len() == 5 && "actors"@.len() == 6
        && "exits"@.len() == 5);
    assert("name"@[0] != "desc"@[0]);
    assert("items"@[0] != "exits"@[0]);
}

impl Itemizeable for Room {
    open spec fn model_of(item: ItemV) -> Option<RoomV> {
        if item.item_type != "room"@ {
            None
        } else {
            match parse_strmap_doc(item.text_or("exits"@, Seq::empty())) {
                None => None,
                Some(ex) => Some(
                    RoomV {
                        id: item.item_id,
                        name: item.text_or("name"@, Seq::empty()),
                        description: item.text_or("desc"@, Seq::empty()),
                        items: item.textvec_or("items"@, Seq::empty()),
                        actors: item.textvec_or("actors"@, Seq::empty()),
                        exits: ex,
                    },
                ),
            }
        }
    }

    open spec fn render(v: RoomV) -> ItemV {
        ItemV { item_type: "room"@, item_id: v.id, item_meta: room_meta(v) }
    }

    open spec fn merge(v: RoomV, item: ItemV) -> ItemV {
        merge_meta_into(room_meta(v), item)
    }

    open spec fn model_id(v: RoomV) -> Seq<char> {
        v.id
    }

    open spec fn inv(&self) -> bool {
        self@.wf()
    }

    proof fn lemma_merge_keeps_frame(x: &Room, item: ItemV) {
        lemma_room_meta_wf(x@);
        lemma_merge_meta_into_frame(room_meta(x@), item);
    }

    proof fn lemma_render_id(x: &Room) {
    }

    proof fn lemma_merge_overrides(x: &Room, item: ItemV, q: Seq<char>) {
        lemma_room_meta_wf(x@);
        lemma_merge_meta_into_get(room_meta(x@), item, q);
    }

    fn from_item(item: &Item) -> (r: Option<Room>) {
        if !str_eq(item.item_type.as_str(), "room") {
            None
        } else {
            proof {
                reveal_strlit("");
                assert(""@ =~= Seq::<char>::empty());
            }
            let exits_text = item.meta_text_or_default("exits", "");
            match deserialize_hashmap(exits_text) {
                None => None,
                Some(exits) => {
                    let name = str_copy(item.meta_text_or_default("name", ""));
                    let description = str_copy(item.meta_text_or_default("desc", ""));
                    let items = match item.meta_get("items") {
                        Some(m) => match m.textvec_ref() {
                            Some(tv) => strs_dup(tv),
                            None => strs_empty(),
                        },
                        None => strs_empty(),
                    };
                    let actors = match item.meta_get("actors") {
                        Some(m) => match m.textvec_ref() {
                            Some(tv) => strs_dup(tv),
                            None => strs_empty(),
                        },
                        None => strs_empty(),
                    };
                    Some(Room { id: item.item_id.clone(), name, description, items, actors, exits })
                },
            }
        }
    }

    fn to_item(&self) -> (r: Item) {
        let mut item = Item::new(str_copy("room"), self.id.clone());
        proof {
            lemma_room_meta_wf(self@);
            lemma_room_merge_unfold(self@, item@);
            lemma_room_merge_into_fresh(self@, item@);
        }
        self.merge_into_item(&mut item);
        item
    }

    fn merge_into_item(&self, item: &mut Item) {
        proof {
            lemma_room_meta_wf(self@);
            lemma_room_merge_unfold(self@, old(item)@);
        }
        item.meta_set("name", Meta::Text(self.name.clone()));
        item.meta_set("desc", Meta::Text(self.description.clone()));
        item.meta_set("items", Meta::TextVec(strs_dup(&self.items)));
        item.meta_set("actors", Meta::TextVec(strs_dup(&self.actors)));
        item.meta_set("exits", Meta::Text(serialize_hashmap(&self.exits)));
    }

    fn get_id(&self) -> (r: &str) {
        self.id.as_str()
    }
}

/// Folding the room's field list is writing its five fields in order.
proof fn lemma_room_merge_unfold(v: RoomV, dst: ItemV)
    ensures
        merge_meta_into(room_meta(v), dst) == dst.set_meta("name"@, MetaV::Text(v.name)).set_meta(
            "desc"@,
            MetaV::Text(v.description),
        ).set_meta("items"@, MetaV::TextVec(v.items)).set_meta(
            "actors"@,
            MetaV::TextVec(v.actors),
        ).set_meta("exits"@, MetaV::Text(ser_strmap(v.exits))),
{
    let src = room_meta(v);
    let d1 = dst.set_meta("name"@, MetaV::Text(v.name));
    let d2 = d1.set_meta("desc"@, MetaV::Text(v.description));
    let d3 = d2.set_meta("items"@, MetaV::TextVec(v.items));
    let d4 = d3.set_meta("actors"@, MetaV::TextVec(v.actors));
    let d5 = d4.set_meta("exits"@, MetaV::Text(ser_strmap(v.exits)));
    let s1 = src.subrange(1, 5);
    let s2 = s1.subrange(1, 4);
    let s3 = s2.subrange(1, 3);
    let s4 = s3.subrange(1, 2);
    let s5 = s4.subrange(1, 1);
    assert(src[0] == ("name"@, MetaV::Text(v.name)));
    assert(merge_meta_into(src, dst) == merge_meta_into(s1, d1));
    assert(s1[0] == ("desc"@, MetaV::Text(v.description)));
    assert(s1.len() == 4);
    assert(merge_meta_into(s1, d1) == merge_meta_into(s2, d2));
    assert(s2[0] == ("items"@, MetaV::TextVec(v.items)));
    assert(s2.len() == 3);
    assert(merge_meta_into(s2, d2) == merge_meta_into(s3, d3));
    assert(s3[0] == ("actors"@, MetaV::TextVec(v.actors)));
    assert(s3.len() == 2);
    assert(merge_meta_into(s3, d3) == merge_meta_into(s4, d4));
    assert(s4[0] == ("exits"@, MetaV::Text(ser_strmap(v.exits))));
    assert(s4.len() == 1);
    assert(merge_meta_into(s4, d4) == merge_meta_into(s5, d5));
    assert(s5.len() == 0);
    assert(merge_meta_into(s5, d5) == d5);
}

/// Writing the room's fields into its fresh record renders it.
proof fn lemma_room_merge_into_fresh(v: RoomV, fresh: ItemV)
    requires
        fresh.item_type == "room"@,
        fresh.item_id == v.id,
        fresh.item_meta == Seq::<(Seq<char>, MetaV)>::empty(),
    ensures
        merge_meta_into(room_meta(v), fresh) == <Room as Itemizeable>::render(v),
{
    lemma_room_merge_unfold(v, fresh);
    lemma_room_meta_wf(v);
    let src = room_meta(v);
    let d1 = fresh.set_meta("name"@, MetaV::Text(v.name));
    assert(d1.item_meta =~= src.subrange(0, 1));
    let d2 = d1.set_meta("desc"@, MetaV::Text(v.description));
    assert(forall|j: int| 0 <= j < d1.item_meta.len() ==> d1.item_meta[j] == src[j]);
    crate::assoc::lemma_set_absent(d1.item_meta, "desc"@, MetaV::Text(v.description));
    assert(d2.item_meta =~= src.subrange(0, 2));
    let d3 = d2.set_meta("items"@, MetaV::TextVec(v.items));
    assert(forall|j: int| 0 <= j < d2.item_meta.len() ==> d2.item_meta[j] == src[j]);
    crate::assoc::lemma_set_absent(d2.item_meta, "items"@, MetaV::TextVec(v.items));
    assert(d3.item_meta =~= src.subrange(0, 3));
    let d4 = d3.set_meta("actors"@, MetaV::TextVec(v.actors));
    assert(forall|j: int| 0 <= j < d3.item_meta.len() ==> d3.item_meta[j] == src[j]);
    crate::assoc::lemma_set_absent(d3.item_meta, "actors"@, MetaV::TextVec(v.actors));
    assert(d4.item_meta =~= src.subrange(0, 4));
    let d5 = d4.set_meta("exits"@, MetaV::Text(ser_strmap(v.exits)));
    assert(forall|j: int| 0 <= j < d4.item_meta.len() ==> d4.item_meta[j] == src[j]);
    crate::assoc::lemma_set_absent(d4.item_meta, "exits"@, MetaV::Text(ser_strmap(v.exits)));
    assert(d5.item_meta =~= src);
    assert(d5 =~= <Room as Itemizeable>::render(v));
}

/// Committing a room keeps the store's records well-formed, one per id.
pub proof fn lemma_room_insert_wf(st: crate::storage::StorageV, v: RoomV)
    requires
        st.wf(),
    ensures
        (crate::storage::StorageV {
            id: st.id,
            items: crate::storage::insert_items::<Room>(st.items, v),
        }).wf(),
{
    lemma_room_meta_wf(v);
    crate::storage::lemma_first_idx(st.items, v.id);
    let i = crate::storage::first_idx(st.items, v.id);
    let after = crate::storage::insert_items::<Room>(st.items, v);
    if i < st.items.len() {
        lemma_merge_meta_into_frame(room_meta(v), st.items[i]);
        assert(after =~= st.items.update(i, <Room as Itemizeable>::merge(v, st.items[i])));
    } else {
        assert(after =~= st.items.push(<Room as Itemizeable>::render(v)));
        assert(<Room as Itemizeable>::render(v).wf());
        assert(forall|j: int| 0 <= j < st.items.len() ==> after[j] == st.items[j]);
    }
}

/// A rendered room parses back to the same model: rendering loses nothing.
pub proof fn lemma_room_render_parses(v: RoomV)
    requires
        v.wf(),
    ensures
        <Room as Itemizeable>::model_of(<Room as Itemizeable>::render(v)) == Some(v),
{
    lemma_room_meta_wf(v);
    let it = <Room as Itemizeable>::render(v);
    let src = room_meta(v);
    assert(crate::assoc::assoc_get(src, "name"@) == Some(MetaV::Text(v.name)));
    assert(src.subrange(1, 5)[0] == ("desc"@, MetaV::Text(v.description)));
    assert(crate::assoc::assoc_get(src, "desc"@) == Some(MetaV::Text(v.description))) by {
        crate::assoc::lemma_get_first_found(src, "desc"@, 1);
    }
    assert(crate::assoc::assoc_get(src, "items"@) == Some(MetaV::TextVec(v.items))) by {
        crate::assoc::lemma_get_first_found(src, "items"@, 2);
    }
    assert(crate::assoc::assoc_get(src, "actors"@) == Some(MetaV::TextVec(v.actors))) by {
        crate::assoc::lemma_get_first_found(src, "actors"@, 3);
    }
    assert(crate::assoc::assoc_get(src, "exits"@) == Some(MetaV::Text(ser_strmap(v.exits)))) by {
        crate::assoc::lemma_get_first_found(src, "exits"@, 4);
    }
    lemma_strmap_round_trip(v.exits);
}

} // verus!
