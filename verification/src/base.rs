//! Combines important elements to get everything for a basic game.
//! This includes: actors, rooms, Ingame setup.

use vstd::prelude::*;
use vstd::string::StringExecFns;
use crate::actions::Action;
use crate::actor::{Actor, ActorV};
use crate::assoc::assoc_get;
use crate::error::{gerr, GameError, GameResult};
use crate::ingame::{Ingame, IngameV, MutIngame};
use crate::item::{Item, ItemV, Itemizeable, lemma_merge_meta_into_frame, lemma_merge_meta_into_get,
    merge_meta_into};
use crate::meta::{Meta, MetaV};
use crate::response::{channel_append, lemma_channel_append_chain};
use crate::room::{Room, RoomV};
use crate::storage::{find_item, insert_items, models_of, Storage, StorageV};

verus! {

/// The models of all rooms in the store, in storage order.
pub open spec fn rooms_of(st: StorageV) -> Seq<RoomV> {
    models_of::<Room>(st.items)
}

/// The room model stored under `id`, when the record there reads as a room.
pub open spec fn room_get(st: StorageV, id: Seq<char>) -> Option<RoomV> {
    match find_item(st.items, id) {
        None => None,
        Some(iv) => <Room as Itemizeable>::model_of(iv),
    }
}

/// The position of the first room holding actor `id`, or the list's length
/// when no room holds it.
pub open spec fn holder_idx(rooms: Seq<RoomV>, id: Seq<char>) -> int
    decreases rooms.len(),
{
    if rooms.len() == 0 {
        0
    } else if rooms[0].actors.contains(id) {
        0
    } else {
        1 + holder_idx(rooms.subrange(1, rooms.len() as int), id)
    }
}

/// What `holder_idx` points at.
pub proof fn lemma_holder_idx(rooms: Seq<RoomV>, id: Seq<char>)
    ensures
        0 <= holder_idx(rooms, id) <= rooms.len(),
        holder_idx(rooms, id) < rooms.len() ==> rooms[holder_idx(rooms, id)].actors.contains(id),
        forall|j: int| 0 <= j < holder_idx(rooms, id) ==> !rooms[j].actors.contains(id),
    decreases rooms.len(),
{
    if rooms.len() == 0 {
    } else if rooms[0].actors.contains(id) {
    } else {
        let t = rooms.subrange(1, rooms.len() as int);
        lemma_holder_idx(t, id);
        assert forall|j: int| 0 <= j < holder_idx(rooms, id) implies !rooms[j].actors.contains(
            id,
        ) by {
            if j > 0 {
                assert(t[j - 1] == rooms[j]);
            }
        }
    }
}

/// A scan that stops at `i` pins `holder_idx` to `i`.
proof fn lemma_holder_idx_pin(rooms: Seq<RoomV>, id: Seq<char>, i: int)
    requires
        0 <= i < rooms.len(),
        rooms[i].actors.contains(id),
        forall|j: int| 0 <= j < i ==> !rooms[j].actors.contains(id),
    ensures
        holder_idx(rooms, id) == i,
    decreases rooms.len(),
{
    if i == 0 {
    } else {
        let t = rooms.subrange(1, rooms.len() as int);
        lemma_holder_idx_pin(t, id, i - 1);
    }
}

/// A scan that misses everywhere pins `holder_idx` to the length.
proof fn lemma_holder_idx_absent(rooms: Seq<RoomV>, id: Seq<char>)
    requires
        forall|j: int| 0 <= j < rooms.len() ==> !rooms[j].actors.contains(id),
    ensures
        holder_idx(rooms, id) == rooms.len(),
    decreases rooms.len(),
{
    if rooms.len() == 0 {
    } else {
        let t = rooms.subrange(1, rooms.len() as int);
        lemma_holder_idx_absent(t, id);
    }
}

/// The room holding actor `id`: the first such room in storage order, or
/// the failure "Room not found".
pub open spec fn spec_room_of_actor(st: StorageV, id: Seq<char>) -> Result<RoomV, Seq<char>> {
    let rs = rooms_of(st);
    let i = holder_idx(rs, id);
    if i < rs.len() {
        Ok(rs[i])
    } else {
        Err("Room not found"@)
    }
}

/// The player: the actor whose id the "base_game" record names.
pub open spec fn spec_get_player(st: StorageV) -> Result<ActorV, Seq<char>> {
    match find_item(st.items, "base_game"@) {
        None => Err("Could not find base_game"@),
        Some(bg) => {
            let pid = bg.text_or("player"@, Seq::empty());
            match find_item(st.items, pid) {
                None => Err("Player not found: "@ + pid),
                Some(iv) => match <Actor as Itemizeable>::model_of(iv) {
                    Some(a) => Ok(a),
                    None => Err("Player not found: "@ + pid),
                },
            }
        },
    }
}

/// The room holding the player.
pub open spec fn spec_room_of_player(st: StorageV) -> Result<RoomV, Seq<char>> {
    match spec_get_player(st) {
        Err(e) => Err(e),
        Ok(p) => spec_room_of_actor(st, p.id),
    }
}

/// The identifiers of `ids` that resolve to a value of type `T` in the
/// store, each replaced by that value, in order.
pub open spec fn resolve_ids<T: Itemizeable>(st: StorageV, ids: Seq<Seq<char>>) -> Seq<T::V>
    decreases ids.len(),
{
    if ids.len() == 0 {
        Seq::empty()
    } else {
        let front = resolve_ids::<T>(st, ids.drop_last());
        match find_item(st.items, ids.last()) {
            None => front,
            Some(iv) => match T::model_of(iv) {
                None => front,
                Some(v) => front.push(v),
            },
        }
    }
}

/// The exits of a room whose target room exists, each label paired with
/// the target's model, in order.
pub open spec fn resolve_exits(st: StorageV, exits: Seq<(Seq<char>, Seq<char>)>) -> Seq<
    (Seq<char>, RoomV),
>
    decreases exits.len(),
{
    if exits.len() == 0 {
        Seq::empty()
    } else {
        let front = resolve_exits(st, exits.drop_last());
        match room_get(st, exits.last().1) {
            None => front,
            Some(rm) => front.push((exits.last().0, rm)),
        }
    }
}

impl Ingame {
    /// Get the room of the given actor.
    ///
    /// Returns an error if no room holds the actor.
    pub fn room_of_actor(&self, actor: &Actor) -> (r: GameResult<Room>)
        requires
            self.inv(),
        ensures
            match (r, spec_room_of_actor(self@.storage, actor@.id)) {
                (Ok(room), Ok(rv)) => room@ == rv && room@.wf(),
                (Err(e), Err(m)) => e@ == m,
                _ => false,
            },
    {
        let ghost rs = rooms_of(self@.storage);
        let rooms: Vec<Room> = self.all_of_type::<Room>();
        let n = rooms.len();
        let mut i: usize = 0;
        while i < n
            invariant
                n == rooms@.len(),
                rs == rooms_of(self@.storage),
                rs.len() == n,
                i <= n,
                forall|j: int| 0 <= j < n ==> (#[trigger] rooms@[j])@ == rs[j] && rooms@[j]@.wf(),
                forall|j: int| 0 <= j < i ==> !rs[j].actors.contains(actor@.id),
            decreases n - i,
        {
            if strs_has(&rooms[i].actors, actor.id.as_str()) {
                proof {
                    lemma_holder_idx_pin(rs, actor@.id, i as int);
                }
                return Ok(rooms[i].dup());
            }
            i = i + 1;
        }
        proof {
            lemma_holder_idx_absent(rs, actor@.id);
        }
        Err(gerr("Room not found"))
    }

    /// Get a tuple of exit names and the rooms behind them; exits whose
    /// target room is missing are skipped.
    pub fn exits_in_room(&self, room: &Room) -> (r: Vec<(String, Room)>)
        requires
            self.inv(),
        ensures
            r@.len() == resolve_exits(self@.storage, room@.exits).len(),
            forall|i: int|
                0 <= i < r@.len() ==> ((#[trigger] r@[i]).0@, r@[i].1@) == resolve_exits(
                    self@.storage,
                    room@.exits,
                )[i],
    {
        let ghost st = self@.storage;
        let ghost ex = room@.exits;
        proof {
            crate::response::lemma_channels_view(room.exits@);
        }
        let mut r: Vec<(String, Room)> = Vec::new();
        let n = room.exits.len();
        let mut i: usize = 0;
        while i < n
            invariant
                self.inv(),
                st == self@.storage,
                n == room.exits@.len(),
                ex.len() == n,
                i <= n,
                forall|j: int|
                    0 <= j < n ==> #[trigger] ex[j] == (room.exits@[j].0@, room.exits@[j].1@),
                r@.len() == resolve_exits(st, ex.subrange(0, i as int)).len(),
                forall|j: int|
                    0 <= j < r@.len() ==> ((#[trigger] r@[j]).0@, r@[j].1@) == resolve_exits(
                        st,
                        ex.subrange(0, i as int),
                    )[j],
            decreases n - i,
        {
            proof {
                assert(ex.subrange(0, i + 1).drop_last() =~= ex.subrange(0, i as int));
                assert(ex.subrange(0, i + 1).last() == ex[i as int]);
            }
            match self.get_item::<Room>(room.exits[i].1.as_str()) {
                Some(target) => {
                    let label = room.exits[i].0.clone();
                    r.push((label, target));
                },
                None => {},
            }
            i = i + 1;
        }
        proof {
            assert(ex.subrange(0, n as int) =~= ex);
        }
        r
    }

    /// Get all items from a room, resolving their identifiers.
    pub fn items_in_room(&self, room: &Room) -> (r: Vec<Item>)
        requires
            self.inv(),
        ensures
            r@.len() == resolve_ids::<Item>(self@.storage, room@.items).len(),
            forall|i: int|
                0 <= i < r@.len() ==> (#[trigger] r@[i])@ == resolve_ids::<Item>(
                    self@.storage,
                    room@.items,
                )[i],
    {
        let ghost st = self@.storage;
        let ghost ids = room@.items;
        let mut r: Vec<Item> = Vec::new();
        let n = room.items.len();
        let mut i: usize = 0;
        while i < n
            invariant
                self.inv(),
                st == self@.storage,
                n == room.items@.len(),
                ids.len() == n,
                i <= n,
                forall|j: int| 0 <= j < n ==> #[trigger] ids[j] == room.items@[j]@,
                r@.len() == resolve_ids::<Item>(st, ids.subrange(0, i as int)).len(),
                forall|j: int|
                    0 <= j < r@.len() ==> (#[trigger] r@[j])@ == resolve_ids::<Item>(
                        st,
                        ids.subrange(0, i as int),
                    )[j],
            decreases n - i,
        {
            proof {
                assert(ids.subrange(0, i + 1).drop_last() =~= ids.subrange(0, i as int));
                assert(ids.subrange(0, i + 1).last() == ids[i as int]);
            }
            match self.get_item::<Item>(room.items[i].as_str()) {
                Some(it) => {
                    r.push(it);
                },
                None => {},
            }
            i = i + 1;
        }
        proof {
            assert(ids.subrange(0, n as int) =~= ids);
        }
        r
    }

    /// Get all actors from a room, resolving their identifiers.
    pub fn actors_in_room(&self, room: &Room) -> (r: Vec<Actor>)
        requires
            self.inv(),
        ensures
            r@.len() == resolve_ids::<Actor>(self@.storage, room@.actors).len(),
            forall|i: int|
                0 <= i < r@.len() ==> (#[trigger] r@[i])@ == resolve_ids::<Actor>(
                    self@.storage,
                    room@.actors,
                )[i],
    {
        let ghost st = self@.storage;
        let ghost ids = room@.actors;
        let mut r: Vec<Actor> = Vec::new();
        let n = room.actors.len();
        let mut i: usize = 0;
        while i < n
            invariant
                self.inv(),
                st == self@.storage,
                n == room.actors@.len(),
                ids.len() == n,
                i <= n,
                forall|j: int| 0 <= j < n ==> #[trigger] ids[j] == room.actors@[j]@,
                r@.len() == resolve_ids::<Actor>(st, ids.subrange(0, i as int)).len(),
                forall|j: int|
                    0 <= j < r@.len() ==> (#[trigger] r@[j])@ == resolve_ids::<Actor>(
                        st,
                        ids.subrange(0, i as int),
                    )[j],
            decreases n - i,
        {
            proof {
                assert(ids.subrange(0, i + 1).drop_last() =~= ids.subrange(0, i as int));
                assert(ids.subrange(0, i + 1).last() == ids[i as int]);
            }
            match self.get_item::<Actor>(room.actors[i].as_str()) {
                Some(a) => {
                    r.push(a);
                },
                None => {},
            }
            i = i + 1;
        }
        proof {
            assert(ids.subrange(0, n as int) =~= ids);
        }
        r
    }

    /// Create an Ingame from the storage, after every package's
    /// plausibility check passes, registering each package's initial
    /// action.
    pub fn init_packages(storage: Storage, packages: Vec<EsgePackage>) -> (r: Result<
        Ingame,
        String,
    >)
        requires
            storage.inv(),
            packages@.len() <= u32::MAX,
        ensures
            r matches Ok(g) && g.inv() && g@.storage == storage@ && g@.actions.index
                == packages@.len() && g@.actions.pending_add.len() == packages@.len() && (forall|
                i: int,
            |
                0 <= i < packages@.len() ==> g@.actions.pending_add[i] == (
                    ((i + 1) as u32),
                    (#[trigger] packages@[i]).init_action@,
                )) && g@.actions.live.len() == 0 && g@.actions.one_shot.len() == 0
                && g@.actions.pending_remove.len() == 0 && g@.response == Map::<
                Seq<char>,
                Seq<char>,
            >::empty(),
    {
        let ghost pk = packages@;
        let mut ingame = Ingame::with_storage(storage);
        let mut rest = packages;
        loop
            invariant_except_break
                ingame.inv(),
                pk.len() <= u32::MAX,
                rest@.len() <= pk.len(),
                rest@ == pk.subrange(pk.len() - rest@.len(), pk.len() as int),
                ingame@.storage == storage@,
                ingame@.actions.index == pk.len() - rest@.len(),
                ingame@.actions.pending_add.len() == pk.len() - rest@.len(),
                forall|i: int|
                    0 <= i < pk.len() - rest@.len() ==> ingame@.actions.pending_add[i] == (
                        ((i + 1) as u32),
                        (#[trigger] pk[i]).init_action@,
                    ),
                ingame@.actions.live.len() == 0,
                ingame@.actions.one_shot.len() == 0,
                ingame@.actions.pending_remove.len() == 0,
                ingame@.response == Map::<Seq<char>, Seq<char>>::empty(),
            ensures
                ingame.inv(),
                ingame@.storage == storage@,
                ingame@.actions.index == pk.len(),
                ingame@.actions.pending_add.len() == pk.len(),
                forall|i: int|
                    0 <= i < pk.len() ==> ingame@.actions.pending_add[i] == (
                        ((i + 1) as u32),
                        (#[trigger] pk[i]).init_action@,
                    ),
                ingame@.actions.live.len() == 0,
                ingame@.actions.one_shot.len() == 0,
                ingame@.actions.pending_remove.len() == 0,
                ingame@.response == Map::<Seq<char>, Seq<char>>::empty(),
            decreases rest@.len(),
        {
            if rest.len() == 0 {
                break ;
            }
            let ghost k = pk.len() - rest@.len();
            let ghost pre = rest@;
            let package = rest.remove(0);
            proof {
                assert(package == pre[0]);
                assert(pre[0] == pk[k]);
                assert(rest@ =~= pk.subrange(pk.len() - rest@.len(), pk.len() as int));
            }
            let check_result = package.plausability_check.eval(&ingame);
            if let Some(msg) = check_result {
                return Err(msg);
            }
            ingame.add_action(package.init_action);
        }
        Ok(ingame)
    }

    /// Return the player of the ingame.
    pub fn get_player(&self) -> (r: GameResult<Actor>)
        requires
            self.inv(),
        ensures
            match (r, spec_get_player(self@.storage)) {
                (Ok(a), Ok(av)) => a@ == av,
                (Err(e), Err(m)) => e@ == m,
                _ => false,
            },
    {
        let bg: Option<BaseGame> = self.get_item("base_game");
        match bg {
            None => Err(gerr("Could not find base_game")),
            Some(bg) => {
                proof {
                    reveal_strlit("");
                    assert(""@ =~= Seq::<char>::empty());
                }
                match self.get_item::<Actor>(bg.player.as_str()) {
                    Some(a) => Ok(a),
                    None => {
                        let mut m = crate::strutil::str_copy("Player not found: ");
                        m.append(bg.player.as_str());
                        Err(GameError::new(m.as_str()))
                    },
                }
            },
        }
    }

    /// Get the room which holds the player.
    pub fn room_of_player(&self) -> (r: GameResult<Room>)
        requires
            self.inv(),
        ensures
            match (r, spec_room_of_player(self@.storage)) {
                (Ok(room), Ok(rv)) => room@ == rv && room@.wf(),
                (Err(e), Err(m)) => e@ == m,
                _ => false,
            },
    {
        let player = match self.get_player() {
            Ok(p) => p,
            Err(e) => {
                return Err(e);
            },
        };
        self.room_of_actor(&player)
    }
}

/// `s` without every occurrence of `id`, in order.
pub open spec fn strs_remove(s: Seq<Seq<char>>, id: Seq<char>) -> Seq<Seq<char>>
    decreases s.len(),
{
    if s.len() == 0 {
        Seq::empty()
    } else {
        let front = strs_remove(s.drop_last(), id);
        if s.last() == id {
            front
        } else {
            front.push(s.last())
        }
    }
}

/// The runtime after the actor `id` is struck from `room`'s actor list and
/// the room is committed back to the store.
pub open spec fn spec_remove_actor_from_room(m: IngameV, id: Seq<char>, room: RoomV) -> IngameV {
    let room2 = RoomV { actors: strs_remove(room.actors, id), ..room };
    IngameV {
        storage: StorageV {
            id: m.storage.id,
            items: insert_items::<Room>(m.storage.items, room2),
        },
        ..m
    }
}

/// The runtime after actor `id` is moved into `room`: struck from the room
/// now holding it, if any, then appended to `room`'s actor list, with both
/// rooms committed.
pub open spec fn spec_warp_actor(m: IngameV, id: Seq<char>, room: RoomV) -> IngameV {
    let m1 = match spec_room_of_actor(m.storage, id) {
        Ok(src) => spec_remove_actor_from_room(m, id, src),
        Err(_) => m,
    };
    let room2 = RoomV { actors: room.actors.push(id), ..room };
    IngameV {
        storage: StorageV {
            id: m1.storage.id,
            items: insert_items::<Room>(m1.storage.items, room2),
        },
        ..m1
    }
}

/// The listed strings, each followed by one space.
pub open spec fn spaced(v: Seq<Seq<char>>) -> Seq<char>
    decreases v.len(),
{
    if v.len() == 0 {
        Seq::empty()
    } else {
        spaced(v.drop_last()) + v.last() + " "@
    }
}

/// The labels of an exit table, in order.
pub open spec fn exit_labels(exits: Seq<(Seq<char>, Seq<char>)>) -> Seq<Seq<char>>
    decreases exits.len(),
{
    if exits.len() == 0 {
        Seq::empty()
    } else {
        exit_labels(exits.drop_last()).push(exits.last().0)
    }
}

/// The text a room prints: its name, its description, and its item and
/// direction lists where they are not empty.
pub open spec fn room_display_text(room: RoomV) -> Seq<char> {
    "Room: "@ + room.name + "\n"@ + room.description + "\n"@ + (if room.items.len() > 0 {
        "Items: "@ + spaced(room.items) + "\n"@
    } else {
        Seq::<char>::empty()
    }) + (if room.exits.len() > 0 {
        "Directions: "@ + spaced(exit_labels(room.exits)) + "\n"@
    } else {
        Seq::<char>::empty()
    })
}

/// The runtime after a room's text is appended to the "out" channel.
pub open spec fn spec_display_room(m: IngameV, room: RoomV) -> IngameV {
    IngameV { response: channel_append(m.response, "out"@, room_display_text(room)), ..m }
}

/// The runtime after the player's room is printed, or the failure that
/// stopped it.
pub open spec fn spec_display_player_room(m: IngameV) -> Result<IngameV, Seq<char>> {
    match spec_room_of_player(m.storage) {
        Err(e) => Err(e),
        Ok(room) => Ok(spec_display_room(m, room)),
    }
}

/// The runtime after actor `id` takes the exit `exit`: moved and the
/// destination printed, or the failure that stopped it, leaving the
/// runtime unchanged.
pub open spec fn spec_move_actor(m: IngameV, id: Seq<char>, exit: Seq<char>) -> Result<
    IngameV,
    Seq<char>,
> {
    match spec_room_of_actor(m.storage, id) {
        Err(e) => Err(e),
        Ok(aroom) => match assoc_get(aroom.exits, exit) {
            None => Err("Could not find exit"@),
            Some(dest_id) => match room_get(m.storage, dest_id) {
                None => Err("Could not get the destination room"@),
                Some(dest) => Ok(spec_display_room(spec_warp_actor(m, id, dest), dest)),
            },
        },
    }
}

/// The runtime after an entity is put into `room`: the entity's id
/// appended to the room's item list, then the room and the entity
/// committed.
pub open spec fn spec_insert_item_in_room<T: Itemizeable>(
    m: IngameV,
    v: T::V,
    room: RoomV,
) -> IngameV {
    let room2 = RoomV { items: room.items.push(T::model_id(v)), ..room };
    let items1 = insert_items::<Room>(m.storage.items, room2);
    IngameV {
        storage: StorageV { id: m.storage.id, items: insert_items::<T>(items1, v) },
        ..m
    }
}

impl MutIngame {
    /// Remove the given actor from the given room.
    pub fn remove_actor_from_room(&mut self, actor: &Actor, room: Room)
        requires
            old(self).inv(),
            room@.wf(),
        ensures
            final(self).inv(),
            final(self)@ == spec_remove_actor_from_room(old(self)@, actor@.id, room@),
    {
        let ghost av = room@.actors;
        let mut kept: Vec<String> = Vec::new();
        let n = room.actors.len();
        let mut i: usize = 0;
        while i < n
            invariant
                n == room.actors@.len(),
                av.len() == n,
                i <= n,
                forall|j: int| 0 <= j < n ==> #[trigger] av[j] == room.actors@[j]@,
                kept.deep_view() == strs_remove(av.subrange(0, i as int), actor@.id),
            decreases n - i,
        {
            proof {
                assert(av.subrange(0, i + 1).drop_last() =~= av.subrange(0, i as int));
                assert(av.subrange(0, i + 1).last() == av[i as int]);
            }
            let ghost kv = kept.deep_view();
            if !crate::strutil::str_eq(room.actors[i].as_str(), actor.id.as_str()) {
                let x = room.actors[i].clone();
                kept.push(x);
                proof {
                    assert(kept.deep_view() =~~= kv.push(av[i as int]));
                }
            }
            i = i + 1;
        }
        proof {
            assert(av.subrange(0, n as int) =~= av);
        }
        let mut room2 = room;
        room2.actors = kept;
        self.insert_item(&room2);
    }

    /// Move an actor to another room.
    ///
    /// If the actor was not in a room yet it will just be inserted.
    pub fn warp_actor(&mut self, actor: &Actor, room: Room)
        requires
            old(self).inv(),
            room@.wf(),
        ensures
            final(self).inv(),
            final(self)@ == spec_warp_actor(old(self)@, actor@.id, room@),
    {
        match self.ingame.room_of_actor(actor) {
            Ok(src_room) => {
                self.remove_actor_from_room(actor, src_room);
            },
            Err(_) => {},
        }
        let mut room2 = room;
        let ghost av = room2@.actors;
        room2.actors.push(actor.id.clone());
        proof {
            assert(room2.actors.deep_view() =~~= av.push(actor@.id));
        }
        self.insert_item(&room2);
    }

    /// Move an actor through an exit to another room.
    ///
    /// Fails if the actor stands in no room, if the exit is not in that
    /// room, or if the room behind the exit was not found.
    pub fn move_actor(&mut self, actor: &Actor, exit_name: &str) -> (r: GameResult<()>)
        requires
            old(self).inv(),
        ensures
            final(self).inv(),
            match (r, spec_move_actor(old(self)@, actor@.id, exit_name@)) {
                (Ok(()), Ok(mv)) => final(self)@ == mv,
                (Err(e), Err(m)) => e@ == m && final(self)@ == old(self)@,
                _ => false,
            },
    {
        let actor_room = match self.ingame.room_of_actor(actor) {
            Ok(r) => r,
            Err(e) => {
                return Err(e);
            },
        };
        let dest_room_name = match actor_room.exit_target(exit_name) {
            Some(t) => t.clone(),
            None => {
                return Err(gerr("Could not find exit"));
            },
        };
        let dest_room: Room = match self.get_item::<Room>(dest_room_name.as_str()) {
            Some(r) => r,
            None => {
                return Err(gerr("Could not get the destination room"));
            },
        };
        self.warp_actor(actor, dest_room.dup());
        self.display_room(&dest_room);
        Ok(())
    }

    /// Print a room to the "out" channel.
    pub fn display_room(&mut self, room: &Room)
        requires
            old(self).inv(),
        ensures
            final(self).inv(),
            final(self)@ == spec_display_room(old(self)@, room@),
    {
        let ghost rv = room@;
        let ghost resp0 = old(self)@.response;
        self.append_response("out", "Room: ");
        self.append_response("out", room.name.as_str());
        self.append_response("out", "\n");
        self.append_response("out", room.description.as_str());
        self.append_response("out", "\n");
        let ghost head = "Room: "@ + rv.name + "\n"@ + rv.description + "\n"@;
        proof {
            lemma_channel_append_chain(resp0, "out"@, "Room: "@, rv.name);
            lemma_channel_append_chain(resp0, "out"@, "Room: "@ + rv.name, "\n"@);
            lemma_channel_append_chain(resp0, "out"@, "Room: "@ + rv.name + "\n"@, rv.description);
            lemma_channel_append_chain(
                resp0,
                "out"@,
                "Room: "@ + rv.name + "\n"@ + rv.description,
                "\n"@,
            );
        }
        let ghost items_part = if rv.items.len() > 0 {
            "Items: "@ + spaced(rv.items) + "\n"@
        } else {
            Seq::<char>::empty()
        };
        if room.items.len() > 0 {
            self.append_response("out", "Items: ");
            proof {
                lemma_channel_append_chain(resp0, "out"@, head, "Items: "@);
            }
            let n = room.items.len();
            let mut i: usize = 0;
            while i < n
                invariant
                    self.inv(),
                    n == room.items@.len(),
                    rv.items.len() == n,
                    n > 0,
                    i <= n,
                    forall|j: int| 0 <= j < n ==> #[trigger] rv.items[j] == room.items@[j]@,
                    self@ == (IngameV {
                        response: channel_append(
                            resp0,
                            "out"@,
                            head + "Items: "@ + spaced(rv.items.subrange(0, i as int)),
                        ),
                        ..old(self)@
                    }),
                decreases n - i,
            {
                proof {
                    assert(rv.items.subrange(0, i + 1).drop_last() =~= rv.items.subrange(
                        0,
                        i as int,
                    ));
                    assert(rv.items.subrange(0, i + 1).last() == rv.items[i as int]);
                }
                let ghost pre = head + "Items: "@ + spaced(rv.items.subrange(0, i as int));
                self.append_response("out", room.items[i].as_str());
                self.append_response("out", " ");
                proof {
                    lemma_channel_append_chain(resp0, "out"@, pre, rv.items[i as int]);
                    lemma_channel_append_chain(resp0, "out"@, pre + rv.items[i as int], " "@);
                    assert(pre + rv.items[i as int] + " "@ =~= head + "Items: "@ + spaced(
                        rv.items.subrange(0, i + 1),
                    ));
                }
                i = i + 1;
            }
            self.append_response("out", "\n");
            proof {
                assert(rv.items.subrange(0, n as int) =~= rv.items);
                lemma_channel_append_chain(
                    resp0,
                    "out"@,
                    head + "Items: "@ + spaced(rv.items),
                    "\n"@,
                );
                assert(head + "Items: "@ + spaced(rv.items) + "\n"@ =~= head + ("Items: "@
                    + spaced(rv.items) + "\n"@));
                assert(head + items_part =~= head + "Items: "@ + spaced(rv.items) + "\n"@);
            }
        } else {
            proof {
                assert(head + items_part =~= head);
            }
        }
        let ghost exits_part = if rv.exits.len() > 0 {
            "Directions: "@ + spaced(exit_labels(rv.exits)) + "\n"@
        } else {
            Seq::<char>::empty()
        };
        if room.exits.len() > 0 {
            self.append_response("out", "Directions: ");
            proof {
                lemma_channel_append_chain(resp0, "out"@, head + items_part, "Directions: "@);
            }
            let ghost labels = exit_labels(rv.exits);
            proof {
                lemma_exit_labels(rv.exits);
            }
            let n = room.exits.len();
            let mut i: usize = 0;
            while i < n
                invariant
                    self.inv(),
                    n == room.exits@.len(),
                    rv.exits.len() == n,
                    labels == exit_labels(rv.exits),
                    labels.len() == n,
                    n > 0,
                    i <= n,
                    forall|j: int| 0 <= j < n ==> #[trigger] labels[j] == room.exits@[j].0@,
                    self@ == (IngameV {
                        response: channel_append(
                            resp0,
                            "out"@,
                            head + items_part + "Directions: "@ + spaced(
                                labels.subrange(0, i as int),
                            ),
                        ),
                        ..old(self)@
                    }),
                decreases n - i,
            {
                proof {
                    assert(labels.subrange(0, i + 1).drop_last() =~= labels.subrange(0, i as int));
                    assert(labels.subrange(0, i + 1).last() == labels[i as int]);
                }
                let ghost pre = head + items_part + "Directions: "@ + spaced(
                    labels.subrange(0, i as int),
                );
                self.append_response("out", room.exits[i].0.as_str());
                self.append_response("out", " ");
                proof {
                    lemma_channel_append_chain(resp0, "out"@, pre, labels[i as int]);
                    lemma_channel_append_chain(resp0, "out"@, pre + labels[i as int], " "@);
                    assert(pre + labels[i as int] + " "@ =~= head + items_part + "Directions: "@
                        + spaced(labels.subrange(0, i + 1)));
                }
                i = i + 1;
            }
            self.append_response("out", "\n");
            proof {
                assert(labels.subrange(0, n as int) =~= labels);
                lemma_channel_append_chain(
                    resp0,
                    "out"@,
                    head + items_part + "Directions: "@ + spaced(labels),
                    "\n"@,
                );
                assert(head + items_part + "Directions: "@ + spaced(labels) + "\n"@ =~= head
                    + items_part + ("Directions: "@ + spaced(labels) + "\n"@));
                assert(head + items_part + exits_part =~= head + items_part + "Directions: "@
                    + spaced(labels) + "\n"@);
            }
        } else {
            proof {
                assert(head + items_part + exits_part =~= head + items_part);
            }
        }
        proof {
            assert(room_display_text(rv) =~= head + items_part + exits_part);
        }
    }

    /// Display the room which holds the player.
    pub fn display_player_room(&mut self) -> (r: GameResult<()>)
        requires
            old(self).inv(),
        ensures
            final(self).inv(),
            match (r, spec_display_player_room(old(self)@)) {
                (Ok(()), Ok(mv)) => final(self)@ == mv,
                (Err(e), Err(m)) => e@ == m && final(self)@ == old(self)@,
                _ => false,
            },
    {
        let room = match self.ingame.room_of_player() {
            Ok(r) => r,
            Err(e) => {
                return Err(e);
            },
        };
        self.display_room(&room);
        Ok(())
    }

    /// Insert an item into a room: the item's id joins the room's item
    /// list, and both are committed.
    pub fn insert_item_in_room<T: Itemizeable>(&mut self, item: &T, room: Room) -> (r: GameResult<
        (),
    >)
        requires
            old(self).inv(),
            item.inv(),
            room@.wf(),
        ensures
            final(self).inv(),
            r is Ok,
            final(self)@ == spec_insert_item_in_room::<T>(old(self)@, item@, room@),
    {
        let mut room2 = room;
        let ghost iv = room2@.items;
        let id = crate::strutil::str_copy(item.get_id());
        room2.items.push(id);
        proof {
            assert(room2.items.deep_view() =~~= iv.push(T::model_id(item@)));
        }
        self.insert_item(&room2);
        self.insert_item(item);
        Ok(())
    }

    /// Insert an item into the room which holds the player.
    pub fn insert_item_in_player_room<T: Itemizeable>(&mut self, item: &T) -> (r: GameResult<()>)
        requires
            old(self).inv(),
            item.inv(),
        ensures
            final(self).inv(),
            match (r, spec_room_of_player(old(self)@.storage)) {
                (Ok(()), Ok(room)) => final(self)@ == spec_insert_item_in_room::<T>(
                    old(self)@,
                    item@,
                    room,
                ),
                (Err(e), Err(m)) => e@ == m && final(self)@ == old(self)@,
                _ => false,
            },
    {
        let player_room = match self.ingame.room_of_player() {
            Ok(r) => r,
            Err(e) => {
                return Err(e);
            },
        };
        self.insert_item_in_room(item, player_room)
    }
}

/// Index the label list of an exit table.
proof fn lemma_exit_labels(exits: Seq<(Seq<char>, Seq<char>)>)
    ensures
        exit_labels(exits).len() == exits.len(),
        forall|i: int| 0 <= i < exits.len() ==> #[trigger] exit_labels(exits)[i] == exits[i].0,
    decreases exits.len(),
{
    if exits.len() > 0 {
        lemma_exit_labels(exits.drop_last());
        assert forall|i: int| 0 <= i < exits.len() implies #[trigger] exit_labels(exits)[i]
            == exits[i].0 by {
            if i < exits.len() - 1 {
                assert(exit_labels(exits)[i] == exit_labels(exits.drop_last())[i]);
                assert(exits.drop_last()[i] == exits[i]);
            }
        }
    }
}

/// Whether some string of `v` reads `s`.
fn strs_has(v: &Vec<String>, s: &str) -> (r: bool)
    ensures
        r == v.deep_view().contains(s@),
{
    proof {
        assert(forall|j: int| 0 <= j < v@.len() ==> v.deep_view()[j] == (#[trigger] v@[j])@);
    }
    let n = v.len();
    let mut i: usize = 0;
    while i < n
        invariant
            n == v@.len(),
            i <= n,
            forall|j: int| 0 <= j < i ==> (#[trigger] v@[j])@ != s@,
        decreases n - i,
    {
        if crate::strutil::str_eq(v[i].as_str(), s) {
            proof {
                assert(v.deep_view()[i as int] == s@);
            }
            return true;
        }
        i = i + 1;
    }
    proof {
        assert(forall|j: int|
            0 <= j < v.deep_view().len() ==> #[trigger] v.deep_view()[j] != s@);
    }
    false
}

/// Checks if the internal structure contains logical errors; the engine's
/// built-in check accepts every runtime.
pub enum PlausabilityCheck {
    /// Accepts every runtime.
    AlwaysOk,
}

impl PlausabilityCheck {
    /// Run the check; a message describes what is implausible.
    pub fn eval(&self, _ingame: &Ingame) -> (r: Option<String>)
        ensures
            r is None,
    {
        match self {
            PlausabilityCheck::AlwaysOk => None,
        }
    }
}

/// A package which can be used to initialize the game engine.
pub struct EsgePackage {
    /// The action registered when the package is installed.
    pub init_action: Action,
    /// The check run against the runtime before installation.
    pub plausability_check: PlausabilityCheck,
}

/// Mathematical model of the base game record.
pub struct BaseGameV {
    /// ID of the player, which must be an actor.
    pub player: Seq<char>,
}

/// Holds relevant information.
pub struct BaseGame {
    /// ID of the player which must be an actor.
    pub player: String,
}

impl View for BaseGame {
    type V = BaseGameV;

    open spec fn view(&self) -> BaseGameV {
        BaseGameV { player: self.player@ }
    }
}

/// The field list the base game record renders: the player's id.
pub open spec fn base_game_meta(v: BaseGameV) -> Seq<(Seq<char>, MetaV)> {
    seq![("player"@, MetaV::Text(v.player))]
}

impl Itemizeable for BaseGame {
    open spec fn model_of(item: ItemV) -> Option<BaseGameV> {
        Some(BaseGameV { player: item.text_or("player"@, Seq::empty()) })
    }

    open spec fn render(v: BaseGameV) -> ItemV {
        ItemV { item_type: "base_game"@, item_id: "base_game"@, item_meta: base_game_meta(v) }
    }

    open spec fn merge(v: BaseGameV, item: ItemV) -> ItemV {
        merge_meta_into(base_game_meta(v), item)
    }

    open spec fn model_id(v: BaseGameV) -> Seq<char> {
        "base_game"@
    }

    open spec fn inv(&self) -> bool {
        true
    }

    proof fn lemma_merge_keeps_frame(x: &BaseGame, item: ItemV) {
        lemma_merge_meta_into_frame(base_game_meta(x@), item);
    }

    proof fn lemma_render_id(x: &BaseGame) {
    }

    proof fn lemma_merge_overrides(x: &BaseGame, item: ItemV, q: Seq<char>) {
        lemma_merge_meta_into_get(base_game_meta(x@), item, q);
    }

    fn from_item(item: &Item) -> (r: Option<BaseGame>) {
        proof {
            reveal_strlit("");
            assert(""@ =~= Seq::<char>::empty());
        }
        Some(BaseGame { player: crate::strutil::str_copy(item.meta_text_or_default("player", "")) })
    }

    fn to_item(&self) -> (r: Item) {
        let mut item = Item::new(
            crate::strutil::str_copy("base_game"),
            crate::strutil::str_copy("base_game"),
        );
        proof {
            lemma_base_game_merge_unfold(self@, item@);
            let d1 = item@.set_meta("player"@, MetaV::Text(self@.player));
            assert(d1.item_meta =~= base_game_meta(self@));
            assert(d1 =~= <BaseGame as Itemizeable>::render(self@));
        }
        self.merge_into_item(&mut item);
        item
    }

    fn merge_into_item(&self, item: &mut Item) {
        proof {
            lemma_base_game_merge_unfold(self@, old(item)@);
        }
        item.meta_set("player", Meta::Text(self.player.clone()));
    }

    fn get_id(&self) -> (r: &str) {
        "base_game"
    }
}

/// Folding the base game's field list is writing its one field.
proof fn lemma_base_game_merge_unfold(v: BaseGameV, dst: ItemV)
    ensures
        merge_meta_into(base_game_meta(v), dst) == dst.set_meta("player"@, MetaV::Text(v.player)),
{
    let src = base_game_meta(v);
    let d1 = dst.set_meta("player"@, MetaV::Text(v.player));
    assert(src[0] == ("player"@, MetaV::Text(v.player)));
    assert(src.len() == 1);
    assert(merge_meta_into(src, dst) == merge_meta_into(src.subrange(1, 1), d1));
    assert(src.subrange(1, 1).len() == 0);
    assert(merge_meta_into(src.subrange(1, 1), d1) == d1);
}

/// Creates an Action which displays the room which holds the player.
pub fn gen_display_current_room_action() -> (r: Action)
    ensures
        r@ == crate::actions::ActionV::DisplayCurrentRoom,
{
    Action::DisplayCurrentRoom
}

/// Creates an Action which moves an actor through an exit into another
/// room, ignoring failure.
pub fn gen_move_actor_action(actor_ref: &Actor, direction: &str) -> (r: Action)
    ensures
        r@ == (crate::actions::ActionV::MoveActor { actor: actor_ref@, direction: direction@ }),
{
    Action::MoveActor { actor: actor_ref.dup(), direction: crate::strutil::str_copy(direction) }
}

/// Creates an Action which moves the player through an exit to another
/// room.
pub fn gen_move_player_action(direction: &str) -> (r: Action)
    ensures
        r@ == (crate::actions::ActionV::MovePlayer { direction: direction@ }),
{
    Action::MovePlayer { direction: crate::strutil::str_copy(direction) }
}

/// Create the base package: a do-nothing initial action and a check that
/// accepts every runtime.
pub fn gen_esge_package() -> (r: EsgePackage)
    ensures
        r.init_action@ == crate::actions::ActionV::Noop,
{
    EsgePackage { init_action: Action::Noop, plausability_check: PlausabilityCheck::AlwaysOk }
}

} // verus!
