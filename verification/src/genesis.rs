//! Create a world inside another world: world building actions and the
//! starting worlds.

use vstd::prelude::*;
use crate::actions::{Action, ActionV};
use crate::actor::{Actor, ActorV};
use crate::assoc::assoc_set;
use crate::base::{spec_room_of_player, room_get, BaseGame, BaseGameV};
use crate::error::{gerr, GameError, GameResult};
use crate::ingame::{Ingame, IngameV, MutIngame};
use crate::item::Itemizeable;
use crate::room::{Room, RoomV};
use crate::storage::{first_idx, insert_items, lemma_first_idx, Storage, StorageV};
use crate::strutil::str_copy;
use crate::terminal::{Command, CommandKind};

verus! {

/// The model of a room fresh from `Room::new`.
pub open spec fn fresh_room(id: Seq<char>) -> RoomV {
    RoomV {
        id,
        name: Seq::empty(),
        description: Seq::empty(),
        items: Seq::empty(),
        actors: Seq::empty(),
        exits: Seq::empty(),
    }
}

/// The runtime after an exit is added from the player's room: the target
/// room is created first when it does not exist, then the exit is bound in
/// the player's room and that room committed.  Fails when no room holds
/// the player.
pub open spec fn spec_add_exit(m: IngameV, exit_name: Seq<char>, room_id: Seq<char>) -> Result<
    IngameV,
    Seq<char>,
> {
    match spec_room_of_player(m.storage) {
        Err(e) => Err(e),
        Ok(proom) => {
            let m1 = if room_get(m.storage, room_id) is None {
                IngameV {
                    storage: StorageV {
                        id: m.storage.id,
                        items: insert_items::<Room>(m.storage.items, fresh_room(room_id)),
                    },
                    ..m
                }
            } else {
                m
            };
            let proom2 = RoomV { exits: assoc_set(proom.exits, exit_name, room_id), ..proom };
            Ok(
                IngameV {
                    storage: StorageV {
                        id: m1.storage.id,
                        items: insert_items::<Room>(m1.storage.items, proom2),
                    },
                    ..m1
                },
            )
        },
    }
}

/// The runtime after the player's room is renamed and committed.
pub open spec fn spec_rename_room(m: IngameV, name: Seq<char>) -> Result<IngameV, Seq<char>> {
    match spec_room_of_player(m.storage) {
        Err(e) => Err(e),
        Ok(proom) => Ok(
            IngameV {
                storage: StorageV {
                    id: m.storage.id,
                    items: insert_items::<Room>(m.storage.items, RoomV { name, ..proom }),
                },
                ..m
            },
        ),
    }
}

/// The runtime after the player's room is redescribed and committed.
pub open spec fn spec_redescribe_room(m: IngameV, description: Seq<char>) -> Result<
    IngameV,
    Seq<char>,
> {
    match spec_room_of_player(m.storage) {
        Err(e) => Err(e),
        Ok(proom) => Ok(
            IngameV {
                storage: StorageV {
                    id: m.storage.id,
                    items: insert_items::<Room>(m.storage.items, RoomV { description, ..proom }),
                },
                ..m
            },
        ),
    }
}

impl MutIngame {
    /// Add an exit from the player's room, creating the target room first
    /// when it does not exist yet.
    pub fn add_exit_from_player_room(&mut self, exit_name: &str, room_id: &str) -> (r: GameResult<
        (),
    >)
        requires
            old(self).inv(),
        ensures
            final(self).inv(),
            match (r, spec_add_exit(old(self)@, exit_name@, room_id@)) {
                (Ok(()), Ok(mv)) => final(self)@ == mv,
                (Err(e), Err(m)) => e@ == m && final(self)@ == old(self)@,
                _ => false,
            },
    {
        let mut player_room = match self.ingame.room_of_player() {
            Ok(r) => r,
            Err(e) => {
                return Err(e);
            },
        };
        let existing: Option<Room> = self.get_item::<Room>(room_id);
        match existing {
            None => {
                let fresh = Room::new(room_id);
                self.insert_item(&fresh);
            },
            Some(_) => {},
        }
        player_room.set_exit(exit_name, room_id);
        self.insert_item(&player_room);
        Ok(())
    }

    /// Rename the player's room.
    pub fn rename_player_room(&mut self, name: &str) -> (r: GameResult<()>)
        requires
            old(self).inv(),
        ensures
            final(self).inv(),
            match (r, spec_rename_room(old(self)@, name@)) {
                (Ok(()), Ok(mv)) => final(self)@ == mv,
                (Err(e), Err(m)) => e@ == m && final(self)@ == old(self)@,
                _ => false,
            },
    {
        let mut player_room = match self.ingame.room_of_player() {
            Ok(r) => r,
            Err(e) => {
                return Err(e);
            },
        };
        player_room.name = str_copy(name);
        self.insert_item(&player_room);
        Ok(())
    }

    /// Rewrite the description of the player's room.
    pub fn redescribe_player_room(&mut self, description: &str) -> (r: GameResult<()>)
        requires
            old(self).inv(),
        ensures
            final(self).inv(),
            match (r, spec_redescribe_room(old(self)@, description@)) {
                (Ok(()), Ok(mv)) => final(self)@ == mv,
                (Err(e), Err(m)) => e@ == m && final(self)@ == old(self)@,
                _ => false,
            },
    {
        let mut player_room = match self.ingame.room_of_player() {
            Ok(r) => r,
            Err(e) => {
                return Err(e);
            },
        };
        player_room.description = str_copy(description);
        self.insert_item(&player_room);
        Ok(())
    }
}

/// Get the minimal storage required: the player, the base game record and
/// the genesis room holding the player.
pub fn initial_genesis(player_name: &str) -> (r: Storage)
    ensures
        r.inv(),
        r@.id == "genesis-stor"@,
        r@.items == seq![
            <Actor as Itemizeable>::render(
                ActorV { id: "player-actor"@, name: player_name@, description: "You"@ },
            ),
            <BaseGame as Itemizeable>::render(BaseGameV { player: "player-actor"@ }),
            <Room as Itemizeable>::render(
                RoomV {
                    name: "Genesis"@,
                    actors: seq!["player-actor"@],
                    ..fresh_room("genesis-room"@)
                },
            ),
        ],
{
    let player = Actor {
        id: str_copy("player-actor"),
        name: str_copy(player_name),
        description: str_copy("You"),
    };
    let base_game = BaseGame { player: str_copy("player-actor") };
    let mut room = Room::new("genesis-room").with_name("Genesis");
    let ghost av = room@.actors;
    room.actors.push(str_copy("player-actor"));
    proof {
        assert(room.actors.deep_view() =~~= av.push("player-actor"@));
    }
    let s0 = Storage::new("genesis-stor");
    let s1 = s0.with_item(player);
    proof {
        lemma_insert_fresh_ids(s0@.items, <Actor as Itemizeable>::render(
            ActorV { id: "player-actor"@, name: player_name@, description: "You"@ },
        ));
    }
    let s2 = s1.with_item(base_game);
    proof {
        reveal_strlit("player-actor");
        reveal_strlit("base_game");
        reveal_strlit("genesis-room");
        assert("player-actor"@.len() == 12 && "base_game"@.len() == 9 && "genesis-room"@.len()
            == 12);
        assert("player-actor"@[0] == 'p' && "genesis-room"@[0] == 'g');
        lemma_insert_fresh_ids(s1@.items, <BaseGame as Itemizeable>::render(
            BaseGameV { player: "player-actor"@ },
        ));
    }
    let s3 = s2.with_item(room);
    proof {
        reveal_strlit("player-actor");
        reveal_strlit("base_game");
        reveal_strlit("genesis-room");
        assert("player-actor"@[0] == 'p' && "genesis-room"@[0] == 'g');
        lemma_insert_fresh_ids(s2@.items, <Room as Itemizeable>::render(
            RoomV {
                name: "Genesis"@,
                actors: seq!["player-actor"@],
                ..fresh_room("genesis-room"@)
            },
        ));
        assert(s3@.items =~= seq![
            <Actor as Itemizeable>::render(
                ActorV { id: "player-actor"@, name: player_name@, description: "You"@ },
            ),
            <BaseGame as Itemizeable>::render(BaseGameV { player: "player-actor"@ }),
            <Room as Itemizeable>::render(
                RoomV {
                    name: "Genesis"@,
                    actors: seq!["player-actor"@],
                    ..fresh_room("genesis-room"@)
                },
            ),
        ]);
    }
    s3
}

/// Appending a record whose id no stored record holds is a plain append.
proof fn lemma_insert_fresh_ids(items: Seq<crate::item::ItemV>, rendered: crate::item::ItemV)
    requires
        forall|j: int| 0 <= j < items.len() ==> (#[trigger] items[j]).item_id != rendered.item_id,
    ensures
        first_idx(items, rendered.item_id) == items.len(),
{
    lemma_first_idx(items, rendered.item_id);
    if first_idx(items, rendered.item_id) < items.len() {
        assert(items[first_idx(items, rendered.item_id)].item_id == rendered.item_id);
    }
}

/// Generates an action which creates a new room with the given id, name
/// and description.
pub fn gen_add_room_action(id: &str, name: Option<String>, description: Option<String>) -> (r:
    Action)
    ensures
        r@ == (ActionV::AddRoom {
            room: RoomV {
                name: match name {
                    Some(n) => n@,
                    None => Seq::empty(),
                },
                description: match description {
                    Some(d) => d@,
                    None => Seq::empty(),
                },
                ..fresh_room(id@)
            },
        }),
{
    let mut room = Room::new(id);
    match name {
        Some(n) => {
            room.name = n;
        },
        None => {},
    }
    match description {
        Some(d) => {
            room.description = d;
        },
        None => {},
    }
    Action::AddRoom { room }
}

/// Create an action which creates a new exit from the player's room.
///
/// It also creates a new room if the target room doesn't exist.
pub fn gen_exit_action(exit_name: &str, room_id: &str) -> (r: Action)
    ensures
        r@ == (ActionV::AddExit { exit_name: exit_name@, room_id: room_id@ }),
{
    Action::AddExit { exit_name: str_copy(exit_name), room_id: str_copy(room_id) }
}

/// Action to rename the player's room.
pub fn gen_rename_room_action(name: &str) -> (r: Action)
    ensures
        r@ == (ActionV::RenameRoom { name: name@ }),
{
    Action::RenameRoom { name: str_copy(name) }
}

/// Action to change the description of the player's room.
pub fn gen_redescribe_room_action(name: &str) -> (r: Action)
    ensures
        r@ == (ActionV::RedescribeRoom { description: name@ }),
{
    Action::RedescribeRoom { description: str_copy(name) }
}

/// Command which generates an exit.
pub fn gen_exit_cmd(keyword: &str) -> (r: Command)
    ensures
        r.keyword@ == keyword@,
        r.kind is AddExit,
{
    Command { keyword: str_copy(keyword), kind: CommandKind::AddExit }
}

/// Command to rename the current room.
pub fn gen_rename_room_cmd(keyword: &str) -> (r: Command)
    ensures
        r.keyword@ == keyword@,
        r.kind is RenameRoom,
{
    Command { keyword: str_copy(keyword), kind: CommandKind::RenameRoom }
}

/// Create a very simple world: the player, the base game record and one
/// starting room holding the player.
pub fn empty_world(player_name: &str, world_name: &str) -> (r: Box<Storage>)
    ensures
        r.inv(),
        r@.id == world_name@,
        r@.items == seq![
            <Actor as Itemizeable>::render(
                ActorV { id: "player-actor"@, name: player_name@, description: "You"@ },
            ),
            <BaseGame as Itemizeable>::render(BaseGameV { player: "player-actor"@ }),
            <Room as Itemizeable>::render(
                RoomV {
                    name: "Init"@,
                    description: "You are in an empty worly"@,
                    actors: seq!["player-actor"@],
                    ..fresh_room("init-room"@)
                },
            ),
        ],
{
    let player = Actor {
        id: str_copy("player-actor"),
        name: str_copy(player_name),
        description: str_copy("You"),
    };
    let base_game = BaseGame { player: str_copy("player-actor") };
    let mut room = Room::new("init-room").with_name("Init").with_description(
        "You are in an empty worly",
    );
    let ghost av = room@.actors;
    room.actors.push(str_copy("player-actor"));
    proof {
        assert(room.actors.deep_view() =~~= av.push("player-actor"@));
    }
    let s0 = Storage::new(world_name);
    let s1 = s0.with_item(player);
    proof {
        lemma_insert_fresh_ids(s0@.items, <Actor as Itemizeable>::render(
            ActorV { id: "player-actor"@, name: player_name@, description: "You"@ },
        ));
    }
    let s2 = s1.with_item(base_game);
    proof {
        reveal_strlit("player-actor");
        reveal_strlit("base_game");
        reveal_strlit("init-room");
        assert("player-actor"@.len() == 12 && "base_game"@.len() == 9 && "init-room"@.len() == 9);
        assert("base_game"@[0] == 'b' && "init-room"@[0] == 'i');
        lemma_insert_fresh_ids(s1@.items, <BaseGame as Itemizeable>::render(
            BaseGameV { player: "player-actor"@ },
        ));
    }
    let s3 = s2.with_item(room);
    proof {
        reveal_strlit("player-actor");
        reveal_strlit("base_game");
        reveal_strlit("init-room");
        assert("base_game"@[0] == 'b' && "init-room"@[0] == 'i');
        lemma_insert_fresh_ids(s2@.items, <Room as Itemizeable>::render(
            RoomV {
                name: "Init"@,
                description: "You are in an empty worly"@,
                actors: seq!["player-actor"@],
                ..fresh_room("init-room"@)
            },
        ));
        assert(s3@.items =~= seq![
            <Actor as Itemizeable>::render(
                ActorV { id: "player-actor"@, name: player_name@, description: "You"@ },
            ),
            <BaseGame as Itemizeable>::render(BaseGameV { player: "player-actor"@ }),
            <Room as Itemizeable>::render(
                RoomV {
                    name: "Init"@,
                    description: "You are in an empty worly"@,
                    actors: seq!["player-actor"@],
                    ..fresh_room("init-room"@)
                },
            ),
        ]);
    }
    Box::new(s3)
}

} // verus!
