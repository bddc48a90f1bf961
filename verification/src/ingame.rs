//! The runtime: entity store, action scheduler and response buffer under one
//! owner, with a read facade (`Ingame`) and a mutation facade (`MutIngame`)
//! that is handed exclusively to one running action at a time.  `step` is the
//! only entry point that advances simulated time.

use vstd::prelude::*;
use crate::actions::{
    acts_view, Action, ActionV, Actions, ActionsV, distinct_handles, handles_le, lemma_acts_view,
    lemma_live_view, live_view,
};
use crate::error::{gerr, GameError, GameResult};
use crate::item::{ItemV, Itemizeable};
use crate::response::{channel_append, channel_read, Response};
use crate::room::{lemma_room_insert_wf, Room, RoomV};
use crate::storage::{insert_items, models_of, Storage, StorageV};

verus! {

/// Mathematical model of the whole runtime.
#[verifier::ext_equal]
pub struct IngameV {
    /// The entity store.
    pub storage: StorageV,
    /// The action scheduler.
    pub actions: ActionsV,
    /// The response channels.
    pub response: Map<Seq<char>, Seq<char>>,
}

impl IngameV {
    /// The store and the scheduler are well-formed.
    pub open spec fn wf(self) -> bool {
        &&& self.storage.wf()
        &&& self.actions.wf()
    }
}

/// Contains the core game state with immutable storage.
///
/// It is not possible to modify the storage and the response through this
/// facade, but actions may be added or removed.
pub struct Ingame {
    storage: Storage,
    actions: Actions,
    response: Response,
}

/// Provides mutable access to the Ingame object.
///
/// It is meant to be handed only to a running action, so that the game state
/// can only be changed through the operations defined here.
pub struct MutIngame {
    /// The owned runtime the facade mediates access to.
    pub ingame: Ingame,
}

impl View for Ingame {
    type V = IngameV;

    closed spec fn view(&self) -> IngameV {
        IngameV { storage: self.storage@, actions: self.actions@, response: self.response@ }
    }
}

impl View for MutIngame {
    type V = IngameV;

    open spec fn view(&self) -> IngameV {
        self.ingame@
    }
}

/// What one action invocation does to the runtime: the runtime afterwards
/// and the failure message, if the action failed.
pub open spec fn spec_invoke(a: ActionV, m: IngameV, h: u32) -> (IngameV, Option<Seq<char>>) {
    match a {
        ActionV::Noop => (m, None),
        ActionV::Append { channel, text } => (
            IngameV { response: channel_append(m.response, channel, text), ..m },
            None,
        ),
        ActionV::RemoveSelfThenAppend { channel, text } => (
            IngameV {
                actions: ActionsV {
                    pending_remove: m.actions.pending_remove.push(h),
                    ..m.actions
                },
                response: channel_append(m.response, channel, text),
                ..m
            },
            None,
        ),
        ActionV::Fail { msg } => (m, Some(msg)),
        ActionV::AddPersistent(inner) => {
            if m.actions.index < u32::MAX {
                (
                    IngameV {
                        actions: ActionsV {
                            pending_add: m.actions.pending_add.push(
                                ((m.actions.index + 1) as u32, *inner),
                            ),
                            index: (m.actions.index + 1) as u32,
                            ..m.actions
                        },
                        ..m
                    },
                    None,
                )
            } else {
                (m, Some("no action handles left"@))
            }
        },
        ActionV::AddOneShot(inner) => (
            IngameV {
                actions: ActionsV { one_shot: m.actions.one_shot.push(*inner), ..m.actions },
                ..m
            },
            None,
        ),
        ActionV::DisplayCurrentRoom => match crate::base::spec_display_player_room(m) {
            Ok(m2) => (m2, None),
            Err(e) => (m, Some(e)),
        },
        ActionV::MoveActor { actor, direction } => match crate::base::spec_move_actor(
            m,
            actor.id,
            direction,
        ) {
            Ok(m2) => (m2, None),
            Err(_) => (m, None),
        },
        ActionV::MovePlayer { direction } => match crate::base::spec_get_player(m.storage) {
            Err(e) => (m, Some(e)),
            Ok(p) => match crate::base::spec_move_actor(m, p.id, direction) {
                Ok(m2) => (m2, None),
                Err(e) => (m, Some(e)),
            },
        },
        ActionV::AddRoom { room } => {
            if room.wf() {
                (
                    IngameV {
                        storage: StorageV {
                            id: m.storage.id,
                            items: insert_items::<Room>(m.storage.items, room),
                        },
                        ..m
                    },
                    None,
                )
            } else {
                (m, Some("duplicate exit label"@))
            }
        },
        ActionV::AddExit { exit_name, room_id } => match crate::genesis::spec_add_exit(
            m,
            exit_name,
            room_id,
        ) {
            Ok(m2) => (m2, None),
            Err(e) => (m, Some(e)),
        },
        ActionV::RenameRoom { name } => match crate::genesis::spec_rename_room(m, name) {
            Ok(m2) => (m2, None),
            Err(e) => (m, Some(e)),
        },
        ActionV::RedescribeRoom { description } => match crate::genesis::spec_redescribe_room(
            m,
            description,
        ) {
            Ok(m2) => (m2, None),
            Err(e) => (m, Some(e)),
        },
    }
}

/// One room commit at the model level keeps the runtime well-formed and
/// the scheduler untouched.
proof fn lemma_insert_room_model(m: IngameV, room: RoomV)
    requires
        m.wf(),
    ensures
        (IngameV {
            storage: StorageV {
                id: m.storage.id,
                items: insert_items::<Room>(m.storage.items, room),
            },
            ..m
        }).wf(),
{
    lemma_room_insert_wf(m.storage, room);
}

/// Every state an action's own effect can reach from a well-formed runtime
/// is well-formed, and the effect never touches the scheduler's live set.
proof fn lemma_spec_invoke_game_wf(a: ActionV, m: IngameV, h: u32)
    requires
        m.wf(),
        a is DisplayCurrentRoom || a is MoveActor || a is MovePlayer || a is AddRoom || a
            is AddExit || a is RenameRoom || a is RedescribeRoom,
    ensures
        spec_invoke(a, m, h).0.wf(),
        spec_invoke(a, m, h).0.actions == m.actions,
{
    match a {
        ActionV::DisplayCurrentRoom => {},
        ActionV::MoveActor { actor, direction } => {
            lemma_spec_move_actor_wf(m, actor.id, direction);
        },
        ActionV::MovePlayer { direction } => match crate::base::spec_get_player(m.storage) {
            Err(_) => {},
            Ok(p) => {
                lemma_spec_move_actor_wf(m, p.id, direction);
            },
        },
        ActionV::AddRoom { room } => {
            if room.wf() {
                lemma_insert_room_model(m, room);
            }
        },
        ActionV::AddExit { exit_name, room_id } => {
            match crate::base::spec_room_of_player(m.storage) {
                Err(_) => {},
                Ok(proom) => {
                    let m1 = if crate::base::room_get(m.storage, room_id) is None {
                        IngameV {
                            storage: StorageV {
                                id: m.storage.id,
                                items: insert_items::<Room>(
                                    m.storage.items,
                                    crate::genesis::fresh_room(room_id),
                                ),
                            },
                            ..m
                        }
                    } else {
                        m
                    };
                    if crate::base::room_get(m.storage, room_id) is None {
                        lemma_insert_room_model(m, crate::genesis::fresh_room(room_id));
                    }
                    let proom2 = RoomV {
                        exits: crate::assoc::assoc_set(proom.exits, exit_name, room_id),
                        ..proom
                    };
                    lemma_insert_room_model(m1, proom2);
                },
            }
        },
        ActionV::RenameRoom { name } => match crate::base::spec_room_of_player(m.storage) {
            Err(_) => {},
            Ok(proom) => {
                lemma_insert_room_model(m, RoomV { name, ..proom });
            },
        },
        ActionV::RedescribeRoom { description } => match crate::base::spec_room_of_player(
            m.storage,
        ) {
            Err(_) => {},
            Ok(proom) => {
                lemma_insert_room_model(m, RoomV { description, ..proom });
            },
        },
        _ => {},
    }
}

/// Moving an actor keeps the runtime well-formed and the scheduler
/// untouched.
proof fn lemma_spec_move_actor_wf(m: IngameV, id: Seq<char>, exit: Seq<char>)
    requires
        m.wf(),
    ensures
        (crate::base::spec_move_actor(m, id, exit) matches Ok(m2) ==> m2.wf() && m2.actions
            == m.actions),
{
    match crate::base::spec_room_of_actor(m.storage, id) {
        Err(_) => {},
        Ok(_) => {
            lemma_spec_warp_actor_wf(m, id);
        },
    }
}

/// Warping an actor keeps the runtime well-formed and the scheduler
/// untouched.
proof fn lemma_spec_warp_actor_wf(m: IngameV, id: Seq<char>)
    requires
        m.wf(),
    ensures
        forall|room: RoomV| (#[trigger] crate::base::spec_warp_actor(m, id, room)).wf()
            && crate::base::spec_warp_actor(m, id, room).actions == m.actions,
{
    assert forall|room: RoomV| (#[trigger] crate::base::spec_warp_actor(m, id, room)).wf()
        && crate::base::spec_warp_actor(m, id, room).actions == m.actions by {
        let m1 = match crate::base::spec_room_of_actor(m.storage, id) {
            Ok(src) => crate::base::spec_remove_actor_from_room(m, id, src),
            Err(_) => m,
        };
        match crate::base::spec_room_of_actor(m.storage, id) {
            Ok(src) => {
                lemma_insert_room_model(
                    m,
                    RoomV { actors: crate::base::strs_remove(src.actors, id), ..src },
                );
            },
            Err(_) => {},
        }
        assert(m1.wf());
        let room2 = RoomV { actors: room.actors.push(id), ..room };
        lemma_insert_room_model(m1, room2);
    }
}

/// One invocation as the scheduler performs it: the action's own effect,
/// with a failure message appended to the "err" channel.
pub open spec fn spec_run_one(a: ActionV, m: IngameV, h: u32) -> IngameV {
    let (m2, e) = spec_invoke(a, m, h);
    match e {
        None => m2,
        Some(msg) => IngameV { response: channel_append(m2.response, "err"@, msg), ..m2 },
    }
}

/// The runtime after the listed persistent actions run in order, each
/// receiving its own handle.
pub open spec fn spec_run_persistent(list: Seq<(u32, ActionV)>, m: IngameV) -> IngameV
    decreases list.len(),
{
    if list.len() == 0 {
        m
    } else {
        spec_run_one(list.last().1, spec_run_persistent(list.drop_last(), m), list.last().0)
    }
}

/// The runtime after the listed one-shot actions run in order; a one-shot
/// action receives handle 0.
pub open spec fn spec_run_oneshots(list: Seq<ActionV>, m: IngameV) -> IngameV
    decreases list.len(),
{
    if list.len() == 0 {
        m
    } else {
        spec_run_one(list.last(), spec_run_oneshots(list.drop_last(), m), 0u32)
    }
}

/// One tick: clear the responses, let buffered scheduler changes take
/// effect, run every persistent action against a runtime whose live set is
/// detached, reattach the live set, then drain and run the one-shot list.
pub open spec fn spec_step(m: IngameV) -> IngameV {
    let applied = m.actions.apply();
    let detached = applied.live;
    let m1 = IngameV {
        storage: m.storage,
        actions: applied.with_live(Seq::empty()),
        response: Map::empty(),
    };
    let m2 = spec_run_persistent(detached, m1);
    let m3 = IngameV { storage: m2.storage, actions: m2.actions.with_live(detached), response: m2.response };
    let ones = m3.actions.one_shot;
    let m4 = spec_run_oneshots(
        ones,
        IngameV {
            storage: m3.storage,
            actions: ActionsV { one_shot: Seq::empty(), ..m3.actions },
            response: m3.response,
        },
    );
    m4
}

/// What one invocation can change: it keeps the runtime well-formed, never
/// touches the live set, never lowers the issue counter, and every addition
/// it buffers carries a freshly issued handle.
pub proof fn lemma_run_one_frame(a: ActionV, m: IngameV, h: u32)
    requires
        m.wf(),
    ensures
        spec_run_one(a, m, h).wf(),
        spec_run_one(a, m, h).actions.live == m.actions.live,
        spec_run_one(a, m, h).actions.index >= m.actions.index,
        forall|i: int|
            0 <= i < spec_run_one(a, m, h).actions.pending_add.len() ==> {
                let p = #[trigger] spec_run_one(a, m, h).actions.pending_add[i];
                (exists|j: int|
                    0 <= j < m.actions.pending_add.len() && m.actions.pending_add[j] == p) || p.0
                    > m.actions.index
            },
{
    let m2 = spec_run_one(a, m, h);
    match a {
        ActionV::AddPersistent(inner) => {
            if m.actions.index < u32::MAX {
                let h2 = (m.actions.index + 1) as u32;
                let c = m.actions.live + m.actions.pending_add;
                let c2 = m2.actions.live + m2.actions.pending_add;
                assert(c2 =~= c.push((h2, *inner)));
                assert(distinct_handles(c2));
                assert(handles_le(c2, m2.actions.index));
                assert forall|i: int| 0 <= i < m2.actions.pending_add.len() implies {
                    let p = #[trigger] m2.actions.pending_add[i];
                    (exists|j: int|
                        0 <= j < m.actions.pending_add.len() && m.actions.pending_add[j] == p)
                        || p.0 > m.actions.index
                } by {
                    if i < m.actions.pending_add.len() {
                        assert(m.actions.pending_add[i] == m2.actions.pending_add[i]);
                    }
                }
            }
        },
        ActionV::DisplayCurrentRoom | ActionV::MoveActor { .. } | ActionV::MovePlayer { .. }
            | ActionV::AddRoom { .. } | ActionV::AddExit { .. } | ActionV::RenameRoom { .. }
            | ActionV::RedescribeRoom { .. } => {
            lemma_spec_invoke_game_wf(a, m, h);
            assert(m2.actions == m.actions);
            assert forall|i: int| 0 <= i < m2.actions.pending_add.len() implies {
                let p = #[trigger] m2.actions.pending_add[i];
                (exists|j: int|
                    0 <= j < m.actions.pending_add.len() && m.actions.pending_add[j] == p) || p.0
                    > m.actions.index
            } by {
                assert(m.actions.pending_add[i] == m2.actions.pending_add[i]);
            }
        },
        _ => {
            assert(m2.actions.live + m2.actions.pending_add =~= m.actions.live
                + m.actions.pending_add);
            assert forall|i: int| 0 <= i < m2.actions.pending_add.len() implies {
                let p = #[trigger] m2.actions.pending_add[i];
                (exists|j: int|
                    0 <= j < m.actions.pending_add.len() && m.actions.pending_add[j] == p) || p.0
                    > m.actions.index
            } by {
                assert(m.actions.pending_add[i] == m2.actions.pending_add[i]);
            }
        },
    }
}

/// What a whole phase can change, by folding `lemma_run_one_frame`.
pub proof fn lemma_run_persistent_frame(list: Seq<(u32, ActionV)>, m: IngameV)
    requires
        m.wf(),
    ensures
        spec_run_persistent(list, m).wf(),
        spec_run_persistent(list, m).actions.live == m.actions.live,
        spec_run_persistent(list, m).actions.index >= m.actions.index,
        forall|i: int|
            0 <= i < spec_run_persistent(list, m).actions.pending_add.len() ==> {
                let p = #[trigger] spec_run_persistent(list, m).actions.pending_add[i];
                (exists|j: int|
                    0 <= j < m.actions.pending_add.len() && m.actions.pending_add[j] == p) || p.0
                    > m.actions.index
            },
    decreases list.len(),
{
    if list.len() == 0 {
    } else {
        let mid = spec_run_persistent(list.drop_last(), m);
        lemma_run_persistent_frame(list.drop_last(), m);
        lemma_run_one_frame(list.last().1, mid, list.last().0);
        let fin = spec_run_persistent(list, m);
        assert forall|i: int| 0 <= i < fin.actions.pending_add.len() implies {
            let p = #[trigger] fin.actions.pending_add[i];
            (exists|j: int|
                0 <= j < m.actions.pending_add.len() && m.actions.pending_add[j] == p) || p.0
                > m.actions.index
        } by {
            let p = fin.actions.pending_add[i];
            if exists|j: int|
                0 <= j < mid.actions.pending_add.len() && mid.actions.pending_add[j] == p {
            }
        }
    }
}

/// The one-shot phase seen the same way.
pub proof fn lemma_run_oneshots_frame(list: Seq<ActionV>, m: IngameV)
    requires
        m.wf(),
    ensures
        spec_run_oneshots(list, m).wf(),
        spec_run_oneshots(list, m).actions.live == m.actions.live,
        spec_run_oneshots(list, m).actions.index >= m.actions.index,
    decreases list.len(),
{
    if list.len() == 0 {
    } else {
        let mid = spec_run_oneshots(list.drop_last(), m);
        lemma_run_oneshots_frame(list.drop_last(), m);
        lemma_run_one_frame(list.last(), mid, 0u32);
    }
}

/// Persistent action timing: a tick runs exactly the persistent set that
/// was live once the buffers were applied at its start.  An action added
/// while the tick runs only reaches the buffered additions, so the live
/// set after the tick is still the one that ran: the addition cannot run
/// before the next tick applies the buffers.
pub proof fn lemma_persistent_addition_deferred(m: IngameV)
    requires
        m.wf(),
    ensures
        spec_step(m).actions.live == m.actions.apply().live,
{
    let applied = m.actions.apply();
    let detached = applied.live;
    let m1 = IngameV {
        storage: m.storage,
        actions: applied.with_live(Seq::empty()),
        response: Map::empty(),
    };
    crate::actions::lemma_remove_handles_distinct(
        m.actions.live + m.actions.pending_add,
        m.actions.pending_remove,
    );
    crate::actions::lemma_remove_handles_le(
        m.actions.live + m.actions.pending_add,
        m.actions.pending_remove,
        m.actions.index,
    );
    assert(m1.actions.live + m1.actions.pending_add =~= m1.actions.pending_add);
    assert(m1.wf());
    lemma_run_persistent_frame(detached, m1);
    let m2 = spec_run_persistent(detached, m1);
    let m3b = IngameV {
        storage: m2.storage,
        actions: ActionsV { one_shot: Seq::empty(), ..m2.actions.with_live(detached) },
        response: m2.response,
    };
    assert(m3b.actions.live == detached);
    lemma_oneshots_keep_live(m3b.actions.one_shot, m3b);
    let ones = m2.actions.one_shot;
    lemma_oneshots_keep_live(ones, m3b);
}

/// The one-shot phase never changes the live set, whatever the actions do
/// and whether or not the scheduler is well-formed.
proof fn lemma_oneshots_keep_live(list: Seq<ActionV>, m: IngameV)
    ensures
        spec_run_oneshots(list, m).actions.live == m.actions.live,
    decreases list.len(),
{
    if list.len() == 0 {
    } else {
        lemma_oneshots_keep_live(list.drop_last(), m);
    }
}

/// An action that is not a one-shot scheduler leaves the one-shot list as
/// it found it.
proof fn lemma_run_one_keeps_one_shot(a: ActionV, m: IngameV, h: u32)
    requires
        !(a is AddOneShot),
    ensures
        spec_run_one(a, m, h).actions.one_shot == m.actions.one_shot,
{
}

/// One-shot exhaustion: a tick with no persistent work drains its one-shot
/// list completely; when none of the queued one-shot actions queues another
/// one, nothing is left to run on the next tick.
pub proof fn lemma_one_shot_exhaustion(m: IngameV)
    requires
        m.wf(),
        m.actions.apply().live == Seq::<(u32, ActionV)>::empty(),
        forall|i: int|
            0 <= i < m.actions.one_shot.len() ==> !((#[trigger] m.actions.one_shot[i])
                is AddOneShot),
    ensures
        spec_step(m).actions.one_shot == Seq::<ActionV>::empty(),
{
    let applied = m.actions.apply();
    let detached = applied.live;
    let m1 = IngameV {
        storage: m.storage,
        actions: applied.with_live(Seq::empty()),
        response: Map::empty(),
    };
    assert(spec_run_persistent(detached, m1) == m1);
    let m3b = IngameV {
        storage: m1.storage,
        actions: ActionsV { one_shot: Seq::empty(), ..m1.actions.with_live(detached) },
        response: m1.response,
    };
    lemma_run_oneshots_drain(m1.actions.one_shot, m3b);
}

/// Folding a list of non-scheduling one-shot actions over a runtime whose
/// one-shot list is empty leaves it empty.
proof fn lemma_run_oneshots_drain(list: Seq<ActionV>, m: IngameV)
    requires
        m.actions.one_shot == Seq::<ActionV>::empty(),
        forall|i: int| 0 <= i < list.len() ==> !((#[trigger] list[i]) is AddOneShot),
    ensures
        spec_run_oneshots(list, m).actions.one_shot == Seq::<ActionV>::empty(),
    decreases list.len(),
{
    if list.len() == 0 {
    } else {
        lemma_run_oneshots_drain(list.drop_last(), m);
        assert(list[list.len() - 1] == list.last());
        lemma_run_one_keeps_one_shot(list.last(), spec_run_oneshots(list.drop_last(), m), 0u32);
    }
}

/// Channel isolation: appending to one channel leaves every other channel
/// reading exactly what it read before.
pub proof fn lemma_channel_isolation(
    m: Map<Seq<char>, Seq<char>>,
    c1: Seq<char>,
    c2: Seq<char>,
    t: Seq<char>,
)
    requires
        c1 != c2,
    ensures
        channel_read(channel_append(m, c1, t), c2) == channel_read(m, c2),
{
}

/// Channel clearing: a tick that has no persistent and no one-shot action
/// registered leaves every channel reading empty, whatever earlier ticks
/// wrote.
pub proof fn lemma_step_clears_channels(m: IngameV)
    requires
        m.wf(),
        m.actions.apply().live == Seq::<(u32, ActionV)>::empty(),
        m.actions.one_shot == Seq::<ActionV>::empty(),
    ensures
        forall|c: Seq<char>| channel_read(spec_step(m).response, c) == Seq::<char>::empty(),
{
    assert(spec_step(m).response =~= Map::<Seq<char>, Seq<char>>::empty());
}

/// Failure isolation: when a failing action is followed by another action,
/// both run.  The failure only appends its message to the "err" channel;
/// the second action then runs against that state exactly as it would have
/// otherwise.
pub proof fn lemma_failure_isolation(
    m: IngameV,
    msg: Seq<char>,
    b: ActionV,
    h1: u32,
    h2: u32,
)
    ensures
        spec_run_persistent(seq![(h1, ActionV::Fail { msg }), (h2, b)], m) == spec_run_one(
            b,
            IngameV { response: channel_append(m.response, "err"@, msg), ..m },
            h2,
        ),
{
    let l = seq![(h1, ActionV::Fail { msg }), (h2, b)];
    assert(l.drop_last() =~= seq![(h1, ActionV::Fail { msg })]);
    assert(l.drop_last().drop_last() =~= Seq::<(u32, ActionV)>::empty());
    assert(spec_run_persistent(l.drop_last().drop_last(), m) == m);
    assert(spec_run_persistent(l.drop_last(), m) == spec_run_one(
        ActionV::Fail { msg },
        m,
        h1,
    ));
}

impl Action {
    /// Run this action once against the mutation facade, under its own
    /// handle, producing its outcome.
    pub fn invoke(&self, mi: &mut MutIngame, handle: u32) -> (r: Result<(), GameError>)
        requires
            old(mi).inv(),
        ensures
            final(mi).inv(),
            final(mi)@ == spec_invoke(self@, old(mi)@, handle).0,
            match spec_invoke(self@, old(mi)@, handle).1 {
                None => r is Ok,
                Some(msg) => r matches Err(e) && e@ == msg,
            },
    {
        match self {
            Action::Noop => Ok(()),
            Action::Append { channel, text } => {
                mi.append_response(channel.as_str(), text.as_str());
                Ok(())
            },
            Action::RemoveSelfThenAppend { channel, text } => {
                mi.remove_action(handle);
                mi.append_response(channel.as_str(), text.as_str());
                Ok(())
            },
            Action::Fail { msg } => Err(gerr(msg.as_str())),
            Action::AddPersistent(inner) => {
                if mi.can_add_action() {
                    let copy = inner.dup();
                    let _h = mi.add_action(copy);
                    Ok(())
                } else {
                    Err(gerr("no action handles left"))
                }
            },
            Action::AddOneShot(inner) => {
                let copy = inner.dup();
                mi.add_one_time_action(copy);
                Ok(())
            },
            Action::DisplayCurrentRoom => mi.display_player_room(),
            Action::MoveActor { actor, direction } => {
                match mi.move_actor(actor, direction.as_str()) {
                    Ok(()) => Ok(()),
                    Err(_) => Ok(()),
                }
            },
            Action::MovePlayer { direction } => {
                let player = match mi.ingame.get_player() {
                    Ok(p) => p,
                    Err(e) => {
                        return Err(e);
                    },
                };
                mi.move_actor(&player, direction.as_str())
            },
            Action::AddRoom { room } => {
                if crate::codec::pairs_keys_unique(&room.exits) {
                    mi.insert_item(room);
                    Ok(())
                } else {
                    Err(gerr("duplicate exit label"))
                }
            },
            Action::AddExit { exit_name, room_id } => {
                mi.add_exit_from_player_room(exit_name.as_str(), room_id.as_str())
            },
            Action::RenameRoom { name } => mi.rename_player_room(name.as_str()),
            Action::RedescribeRoom { description } => {
                mi.redescribe_player_room(description.as_str())
            },
        }
    }
}

impl Ingame {
    /// The runtime's bookkeeping is sound.
    pub open spec fn inv(&self) -> bool {
        self.resp_inv() && self@.wf()
    }

    /// The response table's own representation invariant.
    pub closed spec fn resp_inv(&self) -> bool {
        self.response.inv()
    }

    /// Create new Ingame without items and actions.
    pub fn new(id: &str) -> (r: Self)
        ensures
            r.inv(),
            r@ == (IngameV {
                storage: StorageV { id: id@, items: Seq::<ItemV>::empty() },
                actions: ActionsV {
                    live: Seq::<(u32, ActionV)>::empty(),
                    pending_add: Seq::<(u32, ActionV)>::empty(),
                    pending_remove: Seq::<u32>::empty(),
                    one_shot: Seq::<ActionV>::empty(),
                    index: 0u32,
                },
                response: Map::<Seq<char>, Seq<char>>::empty(),
            }),
    {
        Ingame { storage: Storage::new(id), actions: Actions::new(), response: Response::new() }
    }

    /// Create a new Ingame with the consumed Storage.
    pub fn with_storage(storage: Storage) -> (r: Self)
        requires
            storage.inv(),
        ensures
            r.inv(),
            r@ == (IngameV {
                storage: storage@,
                actions: ActionsV {
                    live: Seq::<(u32, ActionV)>::empty(),
                    pending_add: Seq::<(u32, ActionV)>::empty(),
                    pending_remove: Seq::<u32>::empty(),
                    one_shot: Seq::<ActionV>::empty(),
                    index: 0u32,
                },
                response: Map::<Seq<char>, Seq<char>>::empty(),
            }),
    {
        Ingame { storage, actions: Actions::new(), response: Response::new() }
    }

    /// Performs one game step: runs the actions, as `spec_step` describes.
    pub fn step(&mut self)
        requires
            old(self).inv(),
        ensures
            final(self).inv(),
            final(self)@ == spec_step(old(self)@),
    {
        let ghost m0 = self@;
        self.response.clear();
        self.actions.apply_actions();
        let detached = self.actions.take_live();
        let ghost dv = live_view(detached@);
        let ghost m1 = IngameV {
            storage: m0.storage,
            actions: m0.actions.apply().with_live(Seq::empty()),
            response: Map::empty(),
        };
        proof {
            assert(self@ =~= m1);
        }
        // Persistent phase: run the detached set, one action at a time.
        let mut tmp = Ingame::new("");
        core::mem::swap(self, &mut tmp);
        let mut mi = MutIngame { ingame: tmp };
        proof {
            assert(mi@ =~= m1);
            lemma_live_view(detached@);
        }
        let n = detached.len();
        let mut i: usize = 0;
        while i < n
            invariant
                n == detached@.len(),
                dv == live_view(detached@),
                dv.len() == n,
                i <= n,
                mi.inv(),
                mi@ == spec_run_persistent(dv.subrange(0, i as int), m1),
                m1.wf(),
            decreases n - i,
        {
            proof {
                lemma_live_view(detached@);
                assert(dv.subrange(0, i + 1).drop_last() =~= dv.subrange(0, i as int));
                assert(dv.subrange(0, i + 1).last() == dv[i as int]);
                assert(dv[i as int] == (detached@[i as int].0, detached@[i as int].1@));
            }
            let p = &detached[i];
            let res = p.1.invoke(&mut mi, p.0);
            match res {
                Ok(()) => {},
                Err(err) => {
                    mi.append_response("err", err.message());
                },
            }
            i = i + 1;
        }
        proof {
            assert(dv.subrange(0, n as int) =~= dv);
        }
        let ghost m2 = spec_run_persistent(dv, m1);
        // Reattach the detached set as the new live set.
        let mut back = mi.ingame;
        core::mem::swap(self, &mut back);
        proof {
            assert(self@ == m2);
            lemma_run_persistent_frame(dv, m1);
            assert(m2.actions.live =~= Seq::<(u32, ActionV)>::empty());
            let c = dv + m2.actions.pending_add;
            assert forall|a: int, b: int| 0 <= a < b < c.len() implies c[a].0 != c[b].0 by {
                if a < dv.len() && b >= dv.len() {
                    assert(c[a] == dv[a]);
                    assert(c[b] == m2.actions.pending_add[b - dv.len()]);
                    assert(m0.actions.apply().live == dv);
                    assert(handles_le(dv, m1.actions.index));
                } else if b < dv.len() {
                    assert(c[a] == dv[a]);
                    assert(c[b] == dv[b]);
                    assert(distinct_handles(dv));
                } else {
                    assert(c[a] == m2.actions.pending_add[a - dv.len()]);
                    assert(c[b] == m2.actions.pending_add[b - dv.len()]);
                    assert(distinct_handles(m2.actions.live + m2.actions.pending_add));
                    assert((m2.actions.live + m2.actions.pending_add)[a - dv.len()]
                        == m2.actions.pending_add[a - dv.len()]);
                    assert((m2.actions.live + m2.actions.pending_add)[b - dv.len()]
                        == m2.actions.pending_add[b - dv.len()]);
                }
            }
            assert forall|a: int| 0 <= a < c.len() implies (#[trigger] c[a]).0
                <= m2.actions.index by {
                if a < dv.len() {
                    assert(c[a] == dv[a]);
                    assert(handles_le(dv, m1.actions.index));
                } else {
                    assert(c[a] == m2.actions.pending_add[a - dv.len()]);
                    assert((m2.actions.live + m2.actions.pending_add)[a - dv.len()]
                        == m2.actions.pending_add[a - dv.len()]);
                    assert(handles_le(
                        m2.actions.live + m2.actions.pending_add,
                        m2.actions.index,
                    ));
                }
            }
            assert(m2.actions.with_live(dv).wf());
        }
        self.actions.put_live(detached);
        let ghost m3 = IngameV {
            storage: m2.storage,
            actions: m2.actions.with_live(dv),
            response: m2.response,
        };
        proof {
            assert(self@ =~= m3);
        }
        // One-shot phase: drain the list and run it; it is not restored.
        let ones = self.actions.take_one_shot();
        let ghost ov = acts_view(ones@);
        let ghost m3b = IngameV {
            storage: m3.storage,
            actions: ActionsV { one_shot: Seq::empty(), ..m3.actions },
            response: m3.response,
        };
        proof {
            assert(self@ =~= m3b);
            lemma_acts_view(ones@);
        }
        let mut tmp2 = Ingame::new("");
        core::mem::swap(self, &mut tmp2);
        let mut mi2 = MutIngame { ingame: tmp2 };
        proof {
            assert(mi2@ =~= m3b);
        }
        let n2 = ones.len();
        let mut k: usize = 0;
        while k < n2
            invariant
                n2 == ones@.len(),
                ov == acts_view(ones@),
                ov.len() == n2,
                k <= n2,
                mi2.inv(),
                mi2@ == spec_run_oneshots(ov.subrange(0, k as int), m3b),
            decreases n2 - k,
        {
            proof {
                lemma_acts_view(ones@);
                assert(ov.subrange(0, k + 1).drop_last() =~= ov.subrange(0, k as int));
                assert(ov.subrange(0, k + 1).last() == ov[k as int]);
                assert(ov[k as int] == ones@[k as int]@);
            }
            let a = &ones[k];
            let res = a.invoke(&mut mi2, 0);
            match res {
                Ok(()) => {},
                Err(err) => {
                    mi2.append_response("err", err.message());
                },
            }
            k = k + 1;
        }
        proof {
            assert(ov.subrange(0, n2 as int) =~= ov);
        }
        let mut back2 = mi2.ingame;
        core::mem::swap(self, &mut back2);
        proof {
            assert(self@ == spec_run_oneshots(ov, m3b));
            assert(spec_step(m0) == spec_run_oneshots(ov, m3b));
        }
    }

    /// Whether another persistent action can still be registered.
    pub fn can_add_action(&self) -> (r: bool)
        ensures
            r == (self@.actions.index < u32::MAX),
    {
        self.actions.handle_space_left()
    }

    /// Add a new action; it first runs on the next step.  Returns the
    /// action's handle, under which it can later be removed.
    pub fn add_action(&mut self, action: Action) -> (h: u32)
        requires
            old(self).inv(),
            old(self)@.actions.index < u32::MAX,
        ensures
            final(self).inv(),
            h == old(self)@.actions.index + 1,
            final(self)@ == (IngameV {
                actions: ActionsV {
                    pending_add: old(self)@.actions.pending_add.push((h, action@)),
                    index: h,
                    ..old(self)@.actions
                },
                ..old(self)@
            }),
    {
        self.actions.add_action(action)
    }

    /// Add an action which is run only once, on the next step.
    pub fn add_one_time_action(&mut self, action: Action)
        requires
            old(self).inv(),
        ensures
            final(self).inv(),
            final(self)@ == (IngameV {
                actions: ActionsV {
                    one_shot: old(self)@.actions.one_shot.push(action@),
                    ..old(self)@.actions
                },
                ..old(self)@
            }),
    {
        self.actions.add_one_time_action(action)
    }

    /// Request removal of the action with the given handle; the request is
    /// applied at the start of the next step, and removing an unknown
    /// handle is a no-op.
    pub fn remove_action(&mut self, i: u32)
        requires
            old(self).inv(),
        ensures
            final(self).inv(),
            final(self)@ == (IngameV {
                actions: ActionsV {
                    pending_remove: old(self)@.actions.pending_remove.push(i),
                    ..old(self)@.actions
                },
                ..old(self)@
            }),
    {
        self.actions.remove_action(i)
    }

    /// Read the response of the given channel; an unwritten channel reads
    /// as the empty string.
    pub fn get_response(&self, channel: &str) -> (r: &str)
        requires
            self.inv(),
        ensures
            r@ == channel_read(self@.response, channel@),
    {
        self.response.get_response(channel)
    }

    /// Get an item from the storage.
    pub fn get_item<T: Itemizeable>(&self, item_id: &str) -> (r: Option<T>)
        requires
            self.inv(),
        ensures
            match self@.storage.find(item_id@) {
                None => r is None,
                Some(iv) => match T::model_of(iv) {
                    Some(m) => r matches Some(x) && x@ == m && x.inv(),
                    None => r is None,
                },
            },
    {
        self.storage.get_item(item_id)
    }

    /// Get all items which can be converted to T.
    pub fn all_of_type<T: Itemizeable>(&self) -> (r: Vec<T>)
        requires
            self.inv(),
        ensures
            r@.len() == models_of::<T>(self@.storage.items).len(),
            forall|i: int|
                0 <= i < r@.len() ==> (#[trigger] r@[i])@ == models_of::<T>(
                    self@.storage.items,
                )[i] && r@[i].inv(),
    {
        self.storage.all_of_type()
    }

    /// Transform the storage to its written text form.
    pub fn serialize(&self) -> (r: String)
        ensures
            r@ == crate::codec::ser_storage(self@.storage),
    {
        self.storage.serialize()
    }

    /// Replace the storage with the one the text describes.  Malformed
    /// text is reported as an error and changes nothing: the load is
    /// all-or-nothing.
    pub fn from_json(&mut self, msg: &str) -> (r: GameResult<()>)
        requires
            old(self).inv(),
        ensures
            final(self).inv(),
            match (r, crate::codec::parse_storage_doc(msg@)) {
                (Ok(()), Some(sv)) => final(self)@ == (IngameV { storage: sv, ..old(self)@ }),
                (Err(e), None) => e@ == "could not read the world text"@ && final(self)@ == old(
                    self,
                )@,
                _ => false,
            },
    {
        match Storage::deserialize(msg) {
            Some(storage) => {
                self.storage = storage;
                Ok(())
            },
            None => Err(gerr("could not read the world text")),
        }
    }
}

impl MutIngame {
    /// The runtime's bookkeeping is sound.
    pub open spec fn inv(&self) -> bool {
        self.ingame.inv()
    }

    /// Insert or merge an item, as the store's insert does.
    pub fn insert_item<T: Itemizeable>(&mut self, item: &T)
        requires
            old(self).inv(),
            item.inv(),
        ensures
            final(self).inv(),
            final(self)@ == (IngameV {
                storage: StorageV {
                    id: old(self)@.storage.id,
                    items: insert_items::<T>(old(self)@.storage.items, item@),
                },
                ..old(self)@
            }),
    {
        self.ingame.storage.insert(item)
    }

    /// Get an item from the storage.
    pub fn get_item<T: Itemizeable>(&self, item_id: &str) -> (r: Option<T>)
        requires
            self.inv(),
        ensures
            match self@.storage.find(item_id@) {
                None => r is None,
                Some(iv) => match T::model_of(iv) {
                    Some(m) => r matches Some(x) && x@ == m && x.inv(),
                    None => r is None,
                },
            },
    {
        self.ingame.get_item(item_id)
    }

    /// Whether another persistent action can still be registered.
    pub fn can_add_action(&self) -> (r: bool)
        ensures
            r == (self@.actions.index < u32::MAX),
    {
        self.ingame.can_add_action()
    }

    /// Add an action; it first runs on the tick after the buffered
    /// additions are next applied.
    pub fn add_action(&mut self, action: Action) -> (h: u32)
        requires
            old(self).inv(),
            old(self)@.actions.index < u32::MAX,
        ensures
            final(self).inv(),
            h == old(self)@.actions.index + 1,
            final(self)@ == (IngameV {
                actions: ActionsV {
                    pending_add: old(self)@.actions.pending_add.push((h, action@)),
                    index: h,
                    ..old(self)@.actions
                },
                ..old(self)@
            }),
    {
        self.ingame.add_action(action)
    }

    /// Add an action which is only run once on the next step.
    pub fn add_one_time_action(&mut self, action: Action)
        requires
            old(self).inv(),
        ensures
            final(self).inv(),
            final(self)@ == (IngameV {
                actions: ActionsV {
                    one_shot: old(self)@.actions.one_shot.push(action@),
                    ..old(self)@.actions
                },
                ..old(self)@
            }),
    {
        self.ingame.add_one_time_action(action)
    }

    /// Request removal of the action with the given handle.
    pub fn remove_action(&mut self, i: u32)
        requires
            old(self).inv(),
        ensures
            final(self).inv(),
            final(self)@ == (IngameV {
                actions: ActionsV {
                    pending_remove: old(self)@.actions.pending_remove.push(i),
                    ..old(self)@.actions
                },
                ..old(self)@
            }),
    {
        self.ingame.remove_action(i)
    }

    /// Overwrite or set the response at the given channel.
    pub fn set_response(&mut self, channel: &str, msg: &str)
        requires
            old(self).inv(),
        ensures
            final(self).inv(),
            final(self)@ == (IngameV {
                response: old(self)@.response.insert(channel@, msg@),
                ..old(self)@
            }),
    {
        self.ingame.response.set_response(channel, msg)
    }

    /// Get the response of the given channel.
    pub fn get_response(&self, channel: &str) -> (r: &str)
        requires
            self.inv(),
        ensures
            r@ == channel_read(self@.response, channel@),
    {
        self.ingame.get_response(channel)
    }

    /// Append the string slice to the end of the given channel.
    pub fn append_response(&mut self, channel: &str, msg: &str)
        requires
            old(self).inv(),
        ensures
            final(self).inv(),
            final(self)@ == (IngameV {
                response: channel_append(old(self)@.response, channel@, msg@),
                ..old(self)@
            }),
    {
        self.ingame.response.append_response(channel, msg)
    }
}

} // verus!
