//! Actors are somehow living creatures like the player or NPCs.

use vstd::prelude::*;
use crate::item::{Item, ItemV, Itemizeable, lemma_merge_meta_into_frame, lemma_merge_meta_into_get,
    merge_meta_into};
use crate::meta::{Meta, MetaV};
use crate::strutil::{str_copy, str_eq};

verus! {

/// Mathematical model of an actor.
pub struct ActorV {
    /// Internal identifier.
    pub id: Seq<char>,
    /// Name of the actor.
    pub name: Seq<char>,
    /// More detailed description of the actor.
    pub description: Seq<char>,
}

/// An item which represents a living creature in the world.
#[derive(Debug)]
pub struct Actor {
    /// Internal identifier.
    pub id: String,
    /// Name of the actor.
    pub name: String,
    /// More detailed description of the actor.
    pub description: String,
}

impl View for Actor {
    type V = ActorV;

    open spec fn view(&self) -> ActorV {
        ActorV { id: self.id@, name: self.name@, description: self.description@ }
    }
}

impl Actor {
    /// Copy this actor; the copy models the same actor.
    pub fn dup(&self) -> (r: Actor)
        ensures
            r@ == self@,
    {
        Actor {
            id: self.id.clone(),
            name: self.name.clone(),
            description: self.description.clone(),
        }
    }
}

/// The field list an actor renders: its name and its description.
pub open spec fn actor_meta(v: ActorV) -> Seq<(Seq<char>, MetaV)> {
    seq![("name"@, MetaV::Text(v.name)), ("desc"@, MetaV::Text(v.description))]
}

/// The two rendered field names differ.
proof fn lemma_actor_meta_wf(v: ActorV)
    ensures
        crate::assoc::unique_keys(actor_meta(v)),
        forall|i: int| 0 <= i < actor_meta(v).len() ==> (#[trigger] actor_meta(v)[i].1).wf(),
{
    reveal_strlit("name");
    reveal_strlit("desc");
    assert("name"@[0] != "desc"@[0]);
}

impl Itemizeable for Actor {
    open spec fn model_of(item: ItemV) -> Option<ActorV> {
        if item.item_type != "actor"@ {
            None
        } else {
            Some(
                ActorV {
                    id: item.item_id,
                    name: item.text_or("name"@, Seq::empty()),
                    description: item.text_or("desc"@, Seq::empty()),
                },
            )
        }
    }

    open spec fn render(v: ActorV) -> ItemV {
        ItemV { item_type: "actor"@, item_id: v.id, item_meta: actor_meta(v) }
    }

    open spec fn merge(v: ActorV, item: ItemV) -> ItemV {
        merge_meta_into(actor_meta(v), item)
    }

    open spec fn model_id(v: ActorV) -> Seq<char> {
        v.id
    }

    open spec fn inv(&self) -> bool {
        true
    }

    proof fn lemma_merge_keeps_frame(x: &Actor, item: ItemV) {
        lemma_actor_meta_wf(x@);
        lemma_merge_meta_into_frame(actor_meta(x@), item);
    }

    proof fn lemma_render_id(x: &Actor) {
    }

    proof fn lemma_merge_overrides(x: &Actor, item: ItemV, q: Seq<char>) {
        lemma_actor_meta_wf(x@);
        lemma_merge_meta_into_get(actor_meta(x@), item, q);
    }

    fn from_item(item: &Item) -> (r: Option<Actor>) {
        if !str_eq(item.item_type.as_str(), "actor") {
            None
        } else {
            proof {
                reveal_strlit("");
                assert(""@ =~= Seq::<char>::empty());
            }
            let name = str_copy(item.meta_text_or_default("name", ""));
            let desc = str_copy(item.meta_text_or_default("desc", ""));
            Some(Actor { id: item.item_id.clone(), name, description: desc })
        }
    }

    fn to_item(&self) -> (r: Item) {
        let mut item = Item::new(str_copy("actor"), self.id.clone());
        proof {
            lemma_actor_meta_wf(self@);
            lemma_merge_into_fresh(self@, item@);
        }
        self.merge_into_item(&mut item);
        item
    }

    fn merge_into_item(&self, item: &mut Item) {
        proof {
            lemma_actor_meta_wf(self@);
            lemma_merge_unfold(self@, old(item)@);
        }
        item.meta_set("name", Meta::Text(self.name.clone()));
        item.meta_set("desc", Meta::Text(self.description.clone()));
    }

    fn get_id(&self) -> (r: &str) {
        self.id.as_str()
    }
}

/// Folding the actor's field list is writing its two fields in order.
proof fn lemma_merge_unfold(v: ActorV, dst: ItemV)
    ensures
        merge_meta_into(actor_meta(v), dst) == dst.set_meta(
            "name"@,
            MetaV::Text(v.name),
        ).set_meta("desc"@, MetaV::Text(v.description)),
{
    let src = actor_meta(v);
    let d1 = dst.set_meta("name"@, MetaV::Text(v.name));
    let d2 = d1.set_meta("desc"@, MetaV::Text(v.description));
    assert(src.len() == 2);
    assert(src[0] == ("name"@, MetaV::Text(v.name)));
    assert(merge_meta_into(src, dst) == merge_meta_into(src.subrange(1, 2), d1));
    assert(src.subrange(1, 2)[0] == ("desc"@, MetaV::Text(v.description)));
    assert(src.subrange(1, 2).len() == 1);
    let e = src.subrange(1, 2).subrange(1, 1);
    assert(e.len() == 0);
    assert(merge_meta_into(src.subrange(1, 2), d1) == merge_meta_into(e, d2));
    assert(merge_meta_into(e, d2) == d2);
}

/// Writing the actor's fields into its fresh record renders it.
proof fn lemma_merge_into_fresh(v: ActorV, fresh: ItemV)
    requires
        fresh.item_type == "actor"@,
        fresh.item_id == v.id,
        fresh.item_meta == Seq::<(Seq<char>, MetaV)>::empty(),
    ensures
        merge_meta_into(actor_meta(v), fresh) == <Actor as Itemizeable>::render(v),
{
    lemma_merge_unfold(v, fresh);
    reveal_strlit("name");
    reveal_strlit("desc");
    assert("name"@[0] != "desc"@[0]);
    let d1 = fresh.set_meta("name"@, MetaV::Text(v.name));
    assert(d1.item_meta =~= seq![("name"@, MetaV::Text(v.name))]);
    let d2 = d1.set_meta("desc"@, MetaV::Text(v.description));
    assert(d1.item_meta[0].0 != "desc"@);
    assert(crate::assoc::assoc_set(d1.item_meta, "desc"@, MetaV::Text(v.description))
        =~= actor_meta(v)) by {
        crate::assoc::lemma_set_absent(d1.item_meta, "desc"@, MetaV::Text(v.description));
        assert(d1.item_meta.push(("desc"@, MetaV::Text(v.description))) =~= actor_meta(v));
    }
    assert(d2 =~= <Actor as Itemizeable>::render(v));
}

} // verus!
