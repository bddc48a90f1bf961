//! The tagged record: the store's type-erased representation of one entity,
//! and the capability contract a domain type implements to move between its
//! native form and such a record.

use vstd::prelude::*;
use crate::assoc::{
    assoc_get, assoc_map, assoc_set, lemma_get_some_iff, lemma_set_absent,
    lemma_set_found, lemma_set_unique, unique_keys,
};
use crate::meta::{Meta, MetaV};
use crate::strutil::{str_copy, str_eq};

verus! {

/// Mathematical model of one tagged record.
pub struct ItemV {
    /// Discriminator for the kind of entity.
    pub item_type: Seq<char>,
    /// Primary key, unique within one store.
    pub item_id: Seq<char>,
    /// Field names bound to field values; order carries no meaning.
    pub item_meta: Seq<(Seq<char>, MetaV)>,
}

impl ItemV {
    /// Well-formed records bind each field name once and hold in-range values.
    pub open spec fn wf(self) -> bool {
        &&& unique_keys(self.item_meta)
        &&& forall|i: int| 0 <= i < self.item_meta.len() ==> (#[trigger] self.item_meta[i].1).wf()
    }

    /// The field value bound to `k`, if any.
    pub open spec fn get_meta(self, k: Seq<char>) -> Option<MetaV> {
        assoc_get(self.item_meta, k)
    }

    /// The record with `k` bound to `m`.
    pub open spec fn set_meta(self, k: Seq<char>, m: MetaV) -> ItemV {
        ItemV { item_meta: assoc_set(self.item_meta, k, m), ..self }
    }

    /// The mapping from field names to values that this record stands for.
    pub open spec fn meta_map(self) -> Map<Seq<char>, MetaV> {
        assoc_map(self.item_meta)
    }

    /// The text bound to `k`, or `d` when `k` is absent or not text.
    pub open spec fn text_or(self, k: Seq<char>, d: Seq<char>) -> Seq<char> {
        match self.get_meta(k) {
            Some(MetaV::Text(t)) => t,
            _ => d,
        }
    }

    /// The text list bound to `k`, or `d` when `k` is absent or not a list.
    pub open spec fn textvec_or(self, k: Seq<char>, d: Seq<Seq<char>>) -> Seq<Seq<char>> {
        match self.get_meta(k) {
            Some(MetaV::TextVec(t)) => t,
            _ => d,
        }
    }

    /// Writing a field keeps a well-formed record well-formed and changes
    /// neither its identifier nor its type tag.
    pub proof fn lemma_set_meta_wf(self, k: Seq<char>, m: MetaV)
        requires
            self.wf(),
            m.wf(),
        ensures
            self.set_meta(k, m).wf(),
            self.set_meta(k, m).item_id == self.item_id,
            self.set_meta(k, m).item_type == self.item_type,
            self.set_meta(k, m).get_meta(k) == Some(m),
            forall|q: Seq<char>| q != k ==> self.set_meta(k, m).get_meta(q) == self.get_meta(q),
    {
        lemma_set_unique(self.item_meta, k, m);
        lemma_get_some_iff(self.item_meta, k);
        if assoc_get(self.item_meta, k) is Some {
            let j = choose|j: int| 0 <= j < self.item_meta.len() && self.item_meta[j].0 == k;
            lemma_set_found(self.item_meta, k, m, j);
        } else {
            lemma_set_absent(self.item_meta, k, m);
        }
        assert forall|q: Seq<char>| true implies assoc_get(assoc_set(self.item_meta, k, m), q)
            == if q == k {
            Some(m)
        } else {
            assoc_get(self.item_meta, q)
        } by {
            crate::assoc::lemma_get_after_set(self.item_meta, k, m, q);
        }
    }
}

/// The view of a stored field table.
pub open spec fn entries_view(s: Seq<(String, Meta)>) -> Seq<(Seq<char>, MetaV)> {
    s.map_values(|p: (String, Meta)| (p.0@, p.1@))
}

/// Index the view of a field table.
pub proof fn lemma_entries_view(s: Seq<(String, Meta)>)
    ensures
        entries_view(s).len() == s.len(),
        forall|i: int| 0 <= i < s.len() ==> #[trigger] entries_view(s)[i] == (s[i].0@, s[i].1@),
{
}

/// Any item in a game (a room, an actor, the game state): a type tag, a
/// unique identifier and a table of named field values.
pub struct Item {
    /// ID of the type ("room", "actor").
    pub item_type: String,
    /// Unique ID of the object.
    pub item_id: String,
    /// Additional information like name and description.
    pub item_meta: Vec<(String, Meta)>,
}

impl View for Item {
    type V = ItemV;

    open spec fn view(&self) -> ItemV {
        ItemV {
            item_type: self.item_type@,
            item_id: self.item_id@,
            item_meta: entries_view(self.item_meta@),
        }
    }
}

/// Find the first entry of `s` whose key reads `key`.
fn find_key(s: &Vec<(String, Meta)>, key: &str) -> (r: Option<usize>)
    ensures
        match r {
            Some(i) => i < s@.len() && s@[i as int].0@ == key@ && forall|j: int|
                0 <= j < i ==> s@[j].0@ != key@,
            None => forall|j: int| 0 <= j < s@.len() ==> s@[j].0@ != key@,
        },
{
    let n = s.len();
    let mut i: usize = 0;
    while i < n
        invariant
            n == s@.len(),
            i <= n,
            forall|j: int| 0 <= j < i ==> s@[j].0@ != key@,
        decreases n - i,
    {
        if str_eq(s[i].0.as_str(), key) {
            return Some(i);
        }
        i = i + 1;
    }
    None
}

impl Item {
    /// The record binds each field name at most once.
    pub open spec fn inv(&self) -> bool {
        self@.wf()
    }

    /// New item with given type and item ID, holding no fields yet.
    pub fn new(item_type: String, item_id: String) -> (r: Self)
        ensures
            r@ == (ItemV {
                item_type: item_type@,
                item_id: item_id@,
                item_meta: Seq::<(Seq<char>, MetaV)>::empty(),
            }),
            r.inv(),
    {
        let r = Item { item_type, item_id, item_meta: Vec::new() };
        proof {
            assert(entries_view(r.item_meta@) =~= Seq::<(Seq<char>, MetaV)>::empty());
        }
        r
    }

    /// Look up the field value bound to `key`.
    pub fn meta_get(&self, key: &str) -> (r: Option<&Meta>)
        ensures
            match r {
                Some(m) => self@.get_meta(key@) == Some(m@),
                None => self@.get_meta(key@) is None,
            },
    {
        proof {
            lemma_entries_view(self.item_meta@);
        }
        match find_key(&self.item_meta, key) {
            Some(i) => {
                proof {
                    crate::assoc::lemma_get_first_found(
                        entries_view(self.item_meta@),
                        key@,
                        i as int,
                    );
                }
                Some(&self.item_meta[i].1)
            },
            None => {
                proof {
                    lemma_get_some_iff(entries_view(self.item_meta@), key@);
                }
                None
            },
        }
    }

    /// Bind `key` to `value`, overwriting any earlier binding.
    pub fn meta_set(&mut self, key: &str, value: Meta)
        requires
            old(self).inv(),
        ensures
            final(self).inv(),
            final(self)@ == old(self)@.set_meta(key@, value@),
    {
        let ghost entries = entries_view(self.item_meta@);
        proof {
            lemma_entries_view(self.item_meta@);
            old(self)@.lemma_set_meta_wf(key@, value@);
        }
        match find_key(&self.item_meta, key) {
            Some(i) => {
                proof {
                    lemma_set_found(entries, key@, value@, i as int);
                }
                let k = str_copy(key);
                self.item_meta.set(i, (k, value));
                proof {
                    lemma_entries_view(self.item_meta@);
                    assert(entries_view(self.item_meta@) =~= entries.update(
                        i as int,
                        (key@, value@),
                    ));
                }
            },
            None => {
                proof {
                    lemma_set_absent(entries, key@, value@);
                }
                let k = str_copy(key);
                self.item_meta.push((k, value));
                proof {
                    lemma_entries_view(self.item_meta@);
                    assert(entries_view(self.item_meta@) =~= entries.push((key@, value@)));
                }
            },
        }
    }

    /// Get a reference to the meta text if possible or get the default value
    /// if not possible.
    pub fn meta_text_or_default<'a>(&'a self, key: &str, default: &'a str) -> (r: &'a str)
        ensures
            r@ == self@.text_or(key@, default@),
    {
        let meta = match self.meta_get(key) {
            Some(item) => item,
            None => { return default },
        };
        match meta.text_ref() {
            Some(text) => text.as_str(),
            None => default,
        }
    }

    /// Get a reference to the meta text list if possible or get the default
    /// value if not possible.
    pub fn meta_textvec_or_default<'a>(&'a self, key: &str, default: &'a [String]) -> (r: &'a [
        String])
        ensures
            r.deep_view() == self@.textvec_or(key@, default.deep_view()),
    {
        let meta = match self.meta_get(key) {
            Some(item) => item,
            None => { return default },
        };
        match meta.textvec_ref() {
            Some(vec) => vec.as_slice(),
            None => default,
        }
    }

    /// The number of distinct fields this record binds.
    pub fn meta_len(&self) -> (r: usize)
        ensures
            r == self@.item_meta.len(),
    {
        proof {
            lemma_entries_view(self.item_meta@);
        }
        self.item_meta.len()
    }

    /// The field entry at position `i` of the record's table.
    pub fn meta_at(&self, i: usize) -> (r: (&String, &Meta))
        requires
            i < self@.item_meta.len(),
        ensures
            self@.item_meta[i as int] == (r.0@, r.1@),
    {
        proof {
            lemma_entries_view(self.item_meta@);
        }
        let p = &self.item_meta[i];
        (&p.0, &p.1)
    }

    /// Copy this record; the copy models the same record.
    pub fn dup(&self) -> (r: Item)
        ensures
            r@ == self@,
            self.inv() ==> r.inv(),
    {
        let mut metas: Vec<(String, Meta)> = Vec::new();
        let n = self.item_meta.len();
        let mut i: usize = 0;
        while i < n
            invariant
                n == self.item_meta.len(),
                i <= n,
                metas@.len() == i,
                forall|j: int| 0 <= j < i ==> (#[trigger] metas@[j]).0@ == self.item_meta@[j].0@
                    && metas@[j].1@ == self.item_meta@[j].1@,
            decreases n - i,
        {
            let k = self.item_meta[i].0.clone();
            let v = self.item_meta[i].1.dup();
            metas.push((k, v));
            i = i + 1;
        }
        let r = Item {
            item_type: self.item_type.clone(),
            item_id: self.item_id.clone(),
            item_meta: metas,
        };
        proof {
            lemma_entries_view(self.item_meta@);
            lemma_entries_view(r.item_meta@);
            assert(entries_view(r.item_meta@) =~= entries_view(self.item_meta@));
        }
        r
    }
}

/// Enables structs to be inserted in the Ingame storage.
///
/// A domain type implements this capability set to move between its native
/// typed form and a tagged record: construct-from-record (fallible),
/// convert-to-record, merge-into-existing-record, and expose-my-identifier.
pub trait Itemizeable: View + Sized {
    /// Which records parse, and the model each one parses to.
    spec fn model_of(item: ItemV) -> Option<Self::V>;

    /// The record a model renders to.
    spec fn render(v: Self::V) -> ItemV;

    /// The record after a model's own fields are merged into `item`.
    spec fn merge(v: Self::V, item: ItemV) -> ItemV;

    /// The identifier of a model.
    spec fn model_id(v: Self::V) -> Seq<char>;

    /// Validity of an executable value of the type.
    spec fn inv(&self) -> bool;

    /// Merging changes neither the record's identifier nor its type tag, and
    /// keeps the record well-formed.
    proof fn lemma_merge_keeps_frame(x: &Self, item: ItemV)
        requires
            x.inv(),
            item.wf(),
        ensures
            Self::merge(x@, item).item_id == item.item_id,
            Self::merge(x@, item).item_type == item.item_type,
            Self::merge(x@, item).wf(),
    ;

    /// A rendered record carries the model's own identifier.
    proof fn lemma_render_id(x: &Self)
        requires
            x.inv(),
        ensures
            Self::render(x@).item_id == Self::model_id(x@),
    ;

    /// Merge semantics: merging overwrites exactly the fields the model
    /// renders; every other field of the record is preserved.
    proof fn lemma_merge_overrides(x: &Self, item: ItemV, q: Seq<char>)
        requires
            x.inv(),
            item.wf(),
        ensures
            Self::merge(x@, item).get_meta(q) == match assoc_get(
                Self::render(x@).item_meta,
                q,
            ) {
                Some(m) => Some(m),
                None => item.get_meta(q),
            },
    ;

    /// Convert an Item to the struct.
    ///
    /// Returns None if not compatible.
    fn from_item(item: &Item) -> (r: Option<Self>)
        requires
            item.inv(),
        ensures
            match r {
                Some(x) => Self::model_of(item@) == Some(x@) && x.inv(),
                None => Self::model_of(item@) is None,
            },
    ;

    /// Converts the struct into the Item.
    fn to_item(&self) -> (r: Item)
        requires
            self.inv(),
        ensures
            r@ == Self::render(self@),
            r.inv(),
    ;

    /// Merges itself into the given item.
    ///
    /// May overwrite some metas.
    fn merge_into_item(&self, item: &mut Item)
        requires
            self.inv(),
            old(item).inv(),
        ensures
            final(item)@ == Self::merge(self@, old(item)@),
            final(item).inv(),
    ;

    /// Get the ID of itself.
    fn get_id(&self) -> (r: &str)
        requires
            self.inv(),
        ensures
            r@ == Self::model_id(self@),
    ;
}

/// The record left by writing every field of `src` into `dst`, in table
/// order.
pub open spec fn merge_meta_into(src: Seq<(Seq<char>, MetaV)>, dst: ItemV) -> ItemV
    decreases src.len(),
{
    if src.len() == 0 {
        dst
    } else {
        merge_meta_into(src.subrange(1, src.len() as int), dst.set_meta(src[0].0, src[0].1))
    }
}

/// Folding a write list keeps a record's identifier, type tag and
/// well-formedness.
pub proof fn lemma_merge_meta_into_frame(src: Seq<(Seq<char>, MetaV)>, dst: ItemV)
    requires
        dst.wf(),
        forall|i: int| 0 <= i < src.len() ==> (#[trigger] src[i].1).wf(),
    ensures
        merge_meta_into(src, dst).item_id == dst.item_id,
        merge_meta_into(src, dst).item_type == dst.item_type,
        merge_meta_into(src, dst).wf(),
    decreases src.len(),
{
    if src.len() == 0 {
    } else {
        let d2 = dst.set_meta(src[0].0, src[0].1);
        dst.lemma_set_meta_wf(src[0].0, src[0].1);
        let t = src.subrange(1, src.len() as int);
        assert(forall|i: int| 0 <= i < t.len() ==> (#[trigger] t[i].1).wf());
        lemma_merge_meta_into_frame(t, d2);
    }
}

/// What a folded write list leaves under `q`: the list's own binding where
/// it has one, and the record's old binding elsewhere.
pub proof fn lemma_merge_meta_into_get(src: Seq<(Seq<char>, MetaV)>, dst: ItemV, q: Seq<char>)
    requires
        unique_keys(src),
        dst.wf(),
        forall|i: int| 0 <= i < src.len() ==> (#[trigger] src[i].1).wf(),
    ensures
        merge_meta_into(src, dst).get_meta(q) == match assoc_get(src, q) {
            Some(m) => Some(m),
            None => dst.get_meta(q),
        },
    decreases src.len(),
{
    if src.len() == 0 {
    } else {
        let d2 = dst.set_meta(src[0].0, src[0].1);
        dst.lemma_set_meta_wf(src[0].0, src[0].1);
        let t = src.subrange(1, src.len() as int);
        assert(forall|i: int| 0 <= i < t.len() ==> (#[trigger] t[i].1).wf());
        lemma_merge_meta_into_get(t, d2, q);
        if q == src[0].0 {
            lemma_get_some_iff(t, q);
            if assoc_get(t, q) is Some {
                let j = choose|j: int| 0 <= j < t.len() && t[j].0 == q;
                assert(src[j + 1].0 == q);
                assert(false);
            }
        }
    }
}

impl Itemizeable for Item {
    open spec fn model_of(item: ItemV) -> Option<ItemV> {
        Some(item)
    }

    open spec fn render(v: ItemV) -> ItemV {
        v
    }

    open spec fn merge(v: ItemV, item: ItemV) -> ItemV {
        merge_meta_into(v.item_meta, item)
    }

    open spec fn model_id(v: ItemV) -> Seq<char> {
        v.item_id
    }

    open spec fn inv(&self) -> bool {
        Item::inv(self)
    }

    proof fn lemma_merge_keeps_frame(x: &Item, item: ItemV) {
        lemma_merge_meta_into_frame(x@.item_meta, item);
    }

    proof fn lemma_render_id(x: &Item) {
    }

    proof fn lemma_merge_overrides(x: &Item, item: ItemV, q: Seq<char>) {
        lemma_merge_meta_into_get(x@.item_meta, item, q);
    }

    fn from_item(item: &Item) -> (r: Option<Item>) {
        Some(item.dup())
    }

    fn to_item(&self) -> (r: Item) {
        self.dup()
    }

    fn merge_into_item(&self, item: &mut Item) {
        let ghost src = self@.item_meta;
        let n = self.meta_len();
        let mut i: usize = 0;
        while i < n
            invariant
                src == self@.item_meta,
                n == src.len(),
                i <= n,
                self.inv(),
                item.inv(),
                item@ == merge_meta_into(src.subrange(0, i as int), old(item)@),
            decreases n - i,
        {
            let (k, m) = self.meta_at(i);
            let m2 = m.dup();
            item.meta_set(k.as_str(), m2);
            proof {
                lemma_merge_prefix_step(src, old(item)@, i as int);
            }
            i = i + 1;
        }
        proof {
            assert(src.subrange(0, n as int) =~= src);
        }
    }

    fn get_id(&self) -> (r: &str) {
        self.item_id.as_str()
    }
}

/// Folding one more write extends the folded prefix by one.
proof fn lemma_merge_prefix_step(src: Seq<(Seq<char>, MetaV)>, dst: ItemV, i: int)
    requires
        0 <= i < src.len(),
    ensures
        merge_meta_into(src.subrange(0, i + 1), dst) == merge_meta_into(
            src.subrange(0, i),
            dst,
        ).set_meta(src[i].0, src[i].1),
    decreases i,
{
    let e: Seq<(Seq<char>, MetaV)> = Seq::empty();
    let d2 = dst.set_meta(src[0].0, src[0].1);
    if i == 0 {
        assert(merge_meta_into(e, d2) == d2);
        assert(merge_meta_into(e, dst) == dst);
        assert(src.subrange(0, 1) =~= seq![src[0]]);
        assert(seq![src[0]].subrange(1, 1) =~= e);
        assert(merge_meta_into(seq![src[0]], dst) == merge_meta_into(
            seq![src[0]].subrange(1, 1),
            d2,
        ));
        assert(src.subrange(0, 0) =~= e);
    } else {
        let a = src.subrange(0, i + 1);
        assert(a[0] == src[0]);
        assert(a.subrange(1, a.len() as int) =~= src.subrange(1, src.len() as int).subrange(
            0,
            i as int,
        ));
        assert(src.subrange(0, i)[0] == src[0]);
        assert(src.subrange(0, i).subrange(1, i) =~= src.subrange(1, src.len() as int).subrange(
            0,
            i - 1,
        ));
        let t = src.subrange(1, src.len() as int);
        lemma_merge_prefix_step(t, d2, i - 1);
        assert(merge_meta_into(a, dst) == merge_meta_into(a.subrange(1, a.len() as int), d2));
        assert(merge_meta_into(src.subrange(0, i), dst) == merge_meta_into(
            src.subrange(0, i).subrange(1, i),
            d2,
        ));
        assert(t[i - 1] == src[i as int]);
    }
}

} // verus!
