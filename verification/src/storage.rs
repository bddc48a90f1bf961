//! The entity store: all tagged records of one world, keyed by identifier.

use vstd::prelude::*;
use crate::codec::{items_from_text, items_to_text, parse_items_doc, parse_storage_doc, ser_items,
    ser_storage, storage_from_text, storage_to_text};
use crate::item::{Item, ItemV, Itemizeable, lemma_merge_meta_into_frame, lemma_merge_meta_into_get,
    merge_meta_into};
use crate::meta::{Meta, MetaV};
use crate::strutil::{str_copy, str_eq};

verus! {

/// Mathematical model of a store: its identifier and its records.
pub struct StorageV {
    /// The store's own identifier.
    pub id: Seq<char>,
    /// The stored records; order carries no meaning.
    pub items: Seq<ItemV>,
}

impl StorageV {
    /// Well-formed stores hold well-formed records, at most one per id.
    pub open spec fn wf(self) -> bool {
        &&& forall|i: int| 0 <= i < self.items.len() ==> (#[trigger] self.items[i]).wf()
        &&& forall|i: int, j: int|
            0 <= i < j < self.items.len() ==> self.items[i].item_id != self.items[j].item_id
    }

    /// The record stored under `id`, if any.
    pub open spec fn find(self, id: Seq<char>) -> Option<ItemV> {
        find_item(self.items, id)
    }
}

/// The position of the first record holding `id`, or the sequence's length
/// when no record holds it.
pub open spec fn first_idx(items: Seq<ItemV>, id: Seq<char>) -> int
    decreases items.len(),
{
    if items.len() == 0 {
        0
    } else if items[0].item_id == id {
        0
    } else {
        1 + first_idx(items.subrange(1, items.len() as int), id)
    }
}

/// The record stored under `id`, if any.
pub open spec fn find_item(items: Seq<ItemV>, id: Seq<char>) -> Option<ItemV> {
    let i = first_idx(items, id);
    if i < items.len() {
        Some(items[i])
    } else {
        None
    }
}

/// What `first_idx` points at: the first record holding `id`.
pub proof fn lemma_first_idx(items: Seq<ItemV>, id: Seq<char>)
    ensures
        0 <= first_idx(items, id) <= items.len(),
        first_idx(items, id) < items.len() ==> items[first_idx(items, id)].item_id == id,
        forall|j: int| 0 <= j < first_idx(items, id) ==> items[j].item_id != id,
    decreases items.len(),
{
    if items.len() == 0 {
    } else if items[0].item_id == id {
    } else {
        let t = items.subrange(1, items.len() as int);
        lemma_first_idx(t, id);
        assert forall|j: int| 0 <= j < first_idx(items, id) implies items[j].item_id != id by {
            if j > 0 {
                assert(t[j - 1] == items[j]);
            }
        }
    }
}

/// The records after an entity with model `v` is committed: merged into the
/// record already holding its id, or appended as a fresh record.
pub open spec fn insert_items<T: Itemizeable>(items: Seq<ItemV>, v: T::V) -> Seq<ItemV> {
    let i = first_idx(items, T::model_id(v));
    if i < items.len() {
        items.update(i, T::merge(v, items[i]))
    } else {
        items.push(T::render(v))
    }
}

/// The models of the records that parse as `T`, in storage order.
pub open spec fn models_of<T: Itemizeable>(items: Seq<ItemV>) -> Seq<T::V>
    decreases items.len(),
{
    if items.len() == 0 {
        Seq::empty()
    } else {
        let front = models_of::<T>(items.drop_last());
        match T::model_of(items.last()) {
            Some(m) => front.push(m),
            None => front,
        }
    }
}

/// Merge semantics of committing an entity whose id is already stored: the
/// store keeps every other record untouched, and in the record holding the
/// id exactly the fields the entity renders are overwritten — every
/// unrelated field keeps its old value.
pub proof fn lemma_insert_merge_semantics<T: Itemizeable>(s: StorageV, x: &T, q: Seq<char>)
    requires
        s.wf(),
        x.inv(),
        first_idx(s.items, T::model_id(x@)) < s.items.len(),
    ensures
        ({
            let i = first_idx(s.items, T::model_id(x@));
            let after = insert_items::<T>(s.items, x@);
            &&& after.len() == s.items.len()
            &&& forall|j: int| 0 <= j < s.items.len() && j != i ==> after[j] == s.items[j]
            &&& after[i].get_meta(q) == match crate::assoc::assoc_get(
                T::render(x@).item_meta,
                q,
            ) {
                Some(m) => Some(m),
                None => s.items[i].get_meta(q),
            }
        }),
{
    let i = first_idx(s.items, T::model_id(x@));
    lemma_first_idx(s.items, T::model_id(x@));
    T::lemma_merge_overrides(x, s.items[i], q);
}

/// Contains all items required for a game (Room, Actor).
pub struct Storage {
    id: String,
    items: Vec<Item>,
}

/// The views of a sequence of records.
pub open spec fn items_view(s: Seq<Item>) -> Seq<ItemV> {
    s.map_values(|it: Item| it@)
}

/// Index the view of a record sequence.
pub proof fn lemma_items_view(s: Seq<Item>)
    ensures
        items_view(s).len() == s.len(),
        forall|i: int| 0 <= i < s.len() ==> #[trigger] items_view(s)[i] == s[i]@,
{
}

impl View for Storage {
    type V = StorageV;

    closed spec fn view(&self) -> StorageV {
        StorageV { id: self.id@, items: items_view(self.items@) }
    }
}

/// Find the first record of `s` whose identifier reads `id`.
fn find_item_idx(s: &Vec<Item>, id: &str) -> (r: Option<usize>)
    ensures
        match r {
            Some(i) => i < s@.len() && s@[i as int]@.item_id == id@ && forall|j: int|
                0 <= j < i ==> s@[j]@.item_id != id@,
            None => forall|j: int| 0 <= j < s@.len() ==> s@[j]@.item_id != id@,
        },
{
    let n = s.len();
    let mut i: usize = 0;
    while i < n
        invariant
            n == s@.len(),
            i <= n,
            forall|j: int| 0 <= j < i ==> s@[j]@.item_id != id@,
        decreases n - i,
    {
        if str_eq(s[i].item_id.as_str(), id) {
            return Some(i);
        }
        i = i + 1;
    }
    None
}

impl Storage {
    /// The store holds well-formed records with pairwise distinct ids.
    pub open spec fn inv(&self) -> bool {
        self@.wf()
    }

    /// Generate a new and empty Storage.
    pub fn new(id: &str) -> (r: Self)
        ensures
            r@.id == id@,
            r@.items == Seq::<ItemV>::empty(),
            r.inv(),
    {
        let r = Storage { id: str_copy(id), items: Vec::new() };
        proof {
            assert(items_view(r.items@) =~= Seq::<ItemV>::empty());
        }
        r
    }

    /// Insert an item to the Storage.
    ///
    /// When a record with the entity's id exists, the entity's fields are
    /// merged into it; otherwise the entity's full record is appended.
    pub fn insert<T: Itemizeable>(&mut self, item: &T)
        requires
            old(self).inv(),
            item.inv(),
        ensures
            final(self).inv(),
            final(self)@.id == old(self)@.id,
            final(self)@.items == insert_items::<T>(old(self)@.items, item@),
    {
        let ghost old_items = self@.items;
        proof {
            lemma_items_view(self.items@);
            lemma_first_idx(old_items, T::model_id(item@));
        }
        let id_ref = item.get_id();
        let id = str_copy(id_ref);
        match find_item_idx(&self.items, id.as_str()) {
            Some(i) => {
                proof {
                    assert(first_idx(old_items, T::model_id(item@)) == i as int) by {
                        lemma_first_idx_pin(old_items, T::model_id(item@), i as int);
                    }
                }
                let mut stored = self.items[i].dup();
                item.merge_into_item(&mut stored);
                proof {
                    T::lemma_merge_keeps_frame(item, old_items[i as int]);
                }
                self.items.set(i, stored);
                proof {
                    lemma_items_view(self.items@);
                    assert(items_view(self.items@) =~= old_items.update(
                        i as int,
                        T::merge(item@, old_items[i as int]),
                    ));
                }
            },
            None => {
                proof {
                    lemma_first_idx_absent(old_items, T::model_id(item@));
                    T::lemma_render_id(item);
                }
                let fresh = item.to_item();
                self.items.push(fresh);
                proof {
                    lemma_items_view(self.items@);
                    assert(items_view(self.items@) =~= old_items.push(T::render(item@)));
                }
            },
        }
    }

    /// Consumes and inserts, use for construction.
    pub fn with_item<T: Itemizeable>(self, item: T) -> (r: Self)
        requires
            self.inv(),
            item.inv(),
        ensures
            r.inv(),
            r@.id == self@.id,
            r@.items == insert_items::<T>(self@.items, item@),
    {
        let mut s = self;
        s.insert(&item);
        s
    }

    /// Get an item from the storage.
    ///
    /// It will return None if the item was not found or if it cannot be
    /// converted to T.
    pub fn get_item<T: Itemizeable>(&self, item_id: &str) -> (r: Option<T>)
        requires
            self.inv(),
        ensures
            match self@.find(item_id@) {
                None => r is None,
                Some(iv) => match T::model_of(iv) {
                    Some(m) => r matches Some(x) && x@ == m && x.inv(),
                    None => r is None,
                },
            },
    {
        proof {
            lemma_items_view(self.items@);
            lemma_first_idx(self@.items, item_id@);
        }
        match find_item_idx(&self.items, item_id) {
            Some(i) => {
                proof {
                    lemma_first_idx_pin(self@.items, item_id@, i as int);
                }
                T::from_item(&self.items[i])
            },
            None => {
                proof {
                    lemma_first_idx_absent(self@.items, item_id@);
                }
                None
            },
        }
    }

    /// Return a list of all items which can be converted to type T.
    pub fn all_of_type<T: Itemizeable>(&self) -> (r: Vec<T>)
        requires
            self.inv(),
        ensures
            r@.len() == models_of::<T>(self@.items).len(),
            forall|i: int|
                0 <= i < r@.len() ==> (#[trigger] r@[i])@ == models_of::<T>(self@.items)[i]
                    && r@[i].inv(),
    {
        proof {
            lemma_items_view(self.items@);
        }
        let mut r: Vec<T> = Vec::new();
        let n = self.items.len();
        let mut i: usize = 0;
        while i < n
            invariant
                n == self.items@.len(),
                i <= n,
                self.inv(),
                r@.len() == models_of::<T>(self@.items.subrange(0, i as int)).len(),
                forall|k: int|
                    0 <= k < r@.len() ==> (#[trigger] r@[k])@ == models_of::<T>(
                        self@.items.subrange(0, i as int),
                    )[k] && r@[k].inv(),
            decreases n - i,
        {
            proof {
                lemma_items_view(self.items@);
                assert(self@.items.subrange(0, i + 1).drop_last() =~= self@.items.subrange(
                    0,
                    i as int,
                ));
                assert(self@.items.subrange(0, i + 1).last() == self@.items[i as int]);
            }
            match T::from_item(&self.items[i]) {
                Some(x) => {
                    r.push(x);
                },
                None => {},
            }
            i = i + 1;
        }
        proof {
            assert(self@.items.subrange(0, n as int) =~= self@.items);
        }
        r
    }

    /// The number of records the store holds.
    pub fn len(&self) -> (r: usize)
        ensures
            r == self@.items.len(),
    {
        proof {
            lemma_items_view(self.items@);
        }
        self.items.len()
    }

    /// The store's own identifier.
    pub fn id(&self) -> (r: &str)
        ensures
            r@ == self@.id,
    {
        self.id.as_str()
    }

}

/// A scan that stops at `i` pins `first_idx` to `i`.
proof fn lemma_first_idx_pin(items: Seq<ItemV>, id: Seq<char>, i: int)
    requires
        0 <= i < items.len(),
        items[i].item_id == id,
        forall|j: int| 0 <= j < i ==> items[j].item_id != id,
    ensures
        first_idx(items, id) == i,
    decreases items.len(),
{
    if i == 0 {
    } else {
        let t = items.subrange(1, items.len() as int);
        lemma_first_idx_pin(t, id, i - 1);
    }
}

/// A scan that misses everywhere pins `first_idx` to the length.
proof fn lemma_first_idx_absent(items: Seq<ItemV>, id: Seq<char>)
    requires
        forall|j: int| 0 <= j < items.len() ==> items[j].item_id != id,
    ensures
        first_idx(items, id) == items.len(),
    decreases items.len(),
{
    if items.len() == 0 {
    } else {
        let t = items.subrange(1, items.len() as int);
        lemma_first_idx_absent(t, id);
    }
}

impl Storage {
    /// Transform the store to its written text form.
    pub fn serialize(&self) -> (r: String)
        ensures
            r@ == ser_storage(self@),
    {
        storage_to_text(self.id.as_str(), &self.items)
    }

    /// Rebuild a store from its written text form; text in any other shape
    /// yields nothing, and nothing is partially built.
    pub fn deserialize(msg: &str) -> (r: Option<Storage>)
        ensures
            match (r, parse_storage_doc(msg@)) {
                (Some(st), Some(sv)) => st@ == sv && st.inv(),
                (None, None) => true,
                _ => false,
            },
    {
        proof {
            crate::codec::lemma_parse_storage_wf(msg@, 0);
        }
        match storage_from_text(msg) {
            Some((id, items)) => Some(Storage { id, items }),
            None => None,
        }
    }
}

/// The field list a store renders when stored as an entity inside another
/// store: its whole record map in written form.
pub open spec fn storage_meta(v: StorageV) -> Seq<(Seq<char>, MetaV)> {
    seq![("items"@, MetaV::Text(ser_items(v.items)))]
}

impl Itemizeable for Storage {
    open spec fn model_of(item: ItemV) -> Option<StorageV> {
        if item.item_type != "storage"@ {
            None
        } else {
            match item.get_meta("items"@) {
                Some(MetaV::Text(t)) => match parse_items_doc(t) {
                    Some(items) => Some(StorageV { id: item.item_id, items }),
                    None => None,
                },
                _ => None,
            }
        }
    }

    open spec fn render(v: StorageV) -> ItemV {
        ItemV { item_type: "storage"@, item_id: v.id, item_meta: storage_meta(v) }
    }

    open spec fn merge(v: StorageV, item: ItemV) -> ItemV {
        merge_meta_into(storage_meta(v), item)
    }

    open spec fn model_id(v: StorageV) -> Seq<char> {
        v.id
    }

    open spec fn inv(&self) -> bool {
        Storage::inv(self)
    }

    proof fn lemma_merge_keeps_frame(x: &Storage, item: ItemV) {
        lemma_merge_meta_into_frame(storage_meta(x@), item);
    }

    proof fn lemma_render_id(x: &Storage) {
    }

    proof fn lemma_merge_overrides(x: &Storage, item: ItemV, q: Seq<char>) {
        lemma_merge_meta_into_get(storage_meta(x@), item, q);
    }

    fn from_item(item: &Item) -> (r: Option<Storage>) {
        if !str_eq(item.item_type.as_str(), "storage") {
            None
        } else {
            match item.meta_get("items") {
                Some(m) => match m.text_ref() {
                    Some(t) => {
                        proof {
                            crate::codec::lemma_parse_items_wf(t@, 0);
                        }
                        match items_from_text(t.as_str()) {
                            Some(items) => Some(
                                Storage { id: item.item_id.clone(), items },
                            ),
                            None => None,
                        }
                    },
                    None => None,
                },
                None => None,
            }
        }
    }

    fn to_item(&self) -> (r: Item) {
        let mut item = Item::new(str_copy("storage"), self.id.clone());
        proof {
            lemma_storage_merge_unfold(self@, item@);
            let d1 = item@.set_meta("items"@, MetaV::Text(ser_items(self@.items)));
            assert(d1.item_meta =~= storage_meta(self@));
            assert(d1 =~= <Storage as Itemizeable>::render(self@));
        }
        self.merge_into_item(&mut item);
        item
    }

    fn merge_into_item(&self, item: &mut Item) {
        proof {
            lemma_storage_merge_unfold(self@, old(item)@);
        }
        let text = items_to_text(&self.items);
        item.meta_set("items", Meta::Text(text));
    }

    fn get_id(&self) -> (r: &str) {
        self.id.as_str()
    }
}

/// Folding the store's field list is writing its one field.
proof fn lemma_storage_merge_unfold(v: StorageV, dst: ItemV)
    ensures
        merge_meta_into(storage_meta(v), dst) == dst.set_meta(
            "items"@,
            MetaV::Text(ser_items(v.items)),
        ),
{
    let src = storage_meta(v);
    let d1 = dst.set_meta("items"@, MetaV::Text(ser_items(v.items)));
    assert(src[0] == ("items"@, MetaV::Text(ser_items(v.items))));
    assert(src.len() == 1);
    assert(merge_meta_into(src, dst) == merge_meta_into(src.subrange(1, 1), d1));
    assert(src.subrange(1, 1).len() == 0);
    assert(merge_meta_into(src.subrange(1, 1), d1) == d1);
}

/// A store rendered as an entity parses back to the same model: nesting a
/// world inside another world loses nothing.
pub proof fn lemma_storage_render_parses(v: StorageV)
    requires
        v.wf(),
    ensures
        <Storage as Itemizeable>::model_of(<Storage as Itemizeable>::render(v)) == Some(v),
{
    let src = storage_meta(v);
    assert(crate::assoc::assoc_get(src, "items"@) == Some(MetaV::Text(ser_items(v.items))));
    crate::codec::lemma_items_round_trip(v.items);
}

} // verus!
