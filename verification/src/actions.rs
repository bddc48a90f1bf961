//! The action scheduler: persistent actions keyed by a monotonically
//! increasing handle, plus one-shot actions.  Additions and removals
//! requested while a tick runs are buffered and take effect only at the
//! start of the next tick.

use vstd::prelude::*;
use crate::actor::{Actor, ActorV};
use crate::room::{Room, RoomV};

verus! {

/// Mathematical model of one schedulable action.
pub enum ActionV {
    /// Does nothing and succeeds.
    Noop,
    /// Appends `text` to channel `channel` and succeeds.
    Append { channel: Seq<char>, text: Seq<char> },
    /// Requests its own removal, then appends `text` to `channel`.
    RemoveSelfThenAppend { channel: Seq<char>, text: Seq<char> },
    /// Fails with message `msg`, changing nothing.
    Fail { msg: Seq<char> },
    /// Schedules a copy of the inner action as a persistent action.
    AddPersistent(Box<ActionV>),
    /// Schedules a copy of the inner action as a one-shot action.
    AddOneShot(Box<ActionV>),
    /// Prints the room holding the player to the "out" channel.
    DisplayCurrentRoom,
    /// Moves the given actor through the named exit, ignoring failure.
    MoveActor { actor: ActorV, direction: Seq<char> },
    /// Moves the player through the named exit.
    MovePlayer { direction: Seq<char> },
    /// Commits the given room to the store.
    AddRoom { room: RoomV },
    /// Adds an exit from the player's room, creating the target room first
    /// when it does not exist yet.
    AddExit { exit_name: Seq<char>, room_id: Seq<char> },
    /// Renames the room holding the player.
    RenameRoom { name: Seq<char> },
    /// Rewrites the description of the room holding the player.
    RedescribeRoom { description: Seq<char> },
}

/// An action: a unit of game logic run by the scheduler.  A persistent
/// action runs once per tick until removed; a one-shot action runs exactly
/// once.  When invoked it receives mediated mutable access to the runtime
/// and its own handle, and produces a success/failure outcome.
pub enum Action {
    /// Does nothing and succeeds.
    Noop,
    /// Appends `text` to channel `channel` and succeeds.
    Append {
        /// The channel written to.
        channel: String,
        /// The text appended.
        text: String,
    },
    /// Requests its own removal, then appends `text` to `channel`.
    RemoveSelfThenAppend {
        /// The channel written to.
        channel: String,
        /// The text appended.
        text: String,
    },
    /// Fails with message `msg`, changing nothing.
    Fail {
        /// The failure message.
        msg: String,
    },
    /// Schedules a copy of the inner action as a persistent action.
    AddPersistent(Box<Action>),
    /// Schedules a copy of the inner action as a one-shot action.
    AddOneShot(Box<Action>),
    /// Prints the room holding the player to the "out" channel.
    DisplayCurrentRoom,
    /// Moves the given actor through the named exit, ignoring failure.
    MoveActor {
        /// The actor moved.
        actor: Actor,
        /// The exit taken.
        direction: String,
    },
    /// Moves the player through the named exit.
    MovePlayer {
        /// The exit taken.
        direction: String,
    },
    /// Commits the given room to the store.
    AddRoom {
        /// The room committed.
        room: Room,
    },
    /// Adds an exit from the player's room, creating the target room first
    /// when it does not exist yet.
    AddExit {
        /// The label of the new exit.
        exit_name: String,
        /// The identifier of the room behind it.
        room_id: String,
    },
    /// Renames the room holding the player.
    RenameRoom {
        /// The new name.
        name: String,
    },
    /// Rewrites the description of the room holding the player.
    RedescribeRoom {
        /// The new description.
        description: String,
    },
}

/// The model of an executable action.
pub open spec fn action_view(a: Action) -> ActionV
    decreases a,
{
    match a {
        Action::Noop => ActionV::Noop,
        Action::Append { channel, text } => ActionV::Append { channel: channel@, text: text@ },
        Action::RemoveSelfThenAppend { channel, text } => ActionV::RemoveSelfThenAppend {
            channel: channel@,
            text: text@,
        },
        Action::Fail { msg } => ActionV::Fail { msg: msg@ },
        Action::AddPersistent(inner) => ActionV::AddPersistent(Box::new(action_view(*inner))),
        Action::AddOneShot(inner) => ActionV::AddOneShot(Box::new(action_view(*inner))),
        Action::DisplayCurrentRoom => ActionV::DisplayCurrentRoom,
        Action::MoveActor { actor, direction } => ActionV::MoveActor {
            actor: actor@,
            direction: direction@,
        },
        Action::MovePlayer { direction } => ActionV::MovePlayer { direction: direction@ },
        Action::AddRoom { room } => ActionV::AddRoom { room: room@ },
        Action::AddExit { exit_name, room_id } => ActionV::AddExit {
            exit_name: exit_name@,
            room_id: room_id@,
        },
        Action::RenameRoom { name } => ActionV::RenameRoom { name: name@ },
        Action::RedescribeRoom { description } => ActionV::RedescribeRoom {
            description: description@,
        },
    }
}

impl View for Action {
    type V = ActionV;

    open spec fn view(&self) -> ActionV {
        action_view(*self)
    }
}

impl Action {
    /// Copy this action; the copy models the same action.
    pub fn dup(&self) -> (r: Action)
        ensures
            r@ == self@,
        decreases *self,
    {
        match self {
            Action::Noop => Action::Noop,
            Action::Append { channel, text } => Action::Append {
                channel: channel.clone(),
                text: text.clone(),
            },
            Action::RemoveSelfThenAppend { channel, text } => Action::RemoveSelfThenAppend {
                channel: channel.clone(),
                text: text.clone(),
            },
            Action::Fail { msg } => Action::Fail { msg: msg.clone() },
            Action::AddPersistent(inner) => Action::AddPersistent(Box::new(inner.dup())),
            Action::AddOneShot(inner) => Action::AddOneShot(Box::new(inner.dup())),
            Action::DisplayCurrentRoom => Action::DisplayCurrentRoom,
            Action::MoveActor { actor, direction } => Action::MoveActor {
                actor: actor.dup(),
                direction: direction.clone(),
            },
            Action::MovePlayer { direction } => Action::MovePlayer {
                direction: direction.clone(),
            },
            Action::AddRoom { room } => Action::AddRoom { room: room.dup() },
            Action::AddExit { exit_name, room_id } => Action::AddExit {
                exit_name: exit_name.clone(),
                room_id: room_id.clone(),
            },
            Action::RenameRoom { name } => Action::RenameRoom { name: name.clone() },
            Action::RedescribeRoom { description } => Action::RedescribeRoom {
                description: description.clone(),
            },
        }
    }
}

/// The view of a handle/action table.
pub open spec fn live_view(s: Seq<(u32, Action)>) -> Seq<(u32, ActionV)> {
    s.map_values(|p: (u32, Action)| (p.0, p.1@))
}

/// Index the view of a handle/action table.
pub proof fn lemma_live_view(s: Seq<(u32, Action)>)
    ensures
        live_view(s).len() == s.len(),
        forall|i: int| 0 <= i < s.len() ==> #[trigger] live_view(s)[i] == (s[i].0, s[i].1@),
{
}

/// The view of an action list.
pub open spec fn acts_view(s: Seq<Action>) -> Seq<ActionV> {
    s.map_values(|a: Action| a@)
}

/// Index the view of an action list.
pub proof fn lemma_acts_view(s: Seq<Action>)
    ensures
        acts_view(s).len() == s.len(),
        forall|i: int| 0 <= i < s.len() ==> #[trigger] acts_view(s)[i] == s[i]@,
{
}

/// No handle occurs twice.
pub open spec fn distinct_handles(s: Seq<(u32, ActionV)>) -> bool {
    forall|i: int, j: int| 0 <= i < j < s.len() ==> s[i].0 != s[j].0
}

/// Every handle is at most `n`.
pub open spec fn handles_le(s: Seq<(u32, ActionV)>, n: u32) -> bool {
    forall|i: int| 0 <= i < s.len() ==> (#[trigger] s[i]).0 <= n
}

/// The table without the handles listed in `dels`, keeping the rest in order.
pub open spec fn remove_handles(s: Seq<(u32, ActionV)>, dels: Seq<u32>) -> Seq<(u32, ActionV)>
    decreases s.len(),
{
    if s.len() == 0 {
        Seq::empty()
    } else {
        let front = remove_handles(s.drop_last(), dels);
        if dels.contains(s.last().0) {
            front
        } else {
            front.push(s.last())
        }
    }
}

/// Every pair the removal keeps was in the table.
pub proof fn lemma_remove_handles_sub(s: Seq<(u32, ActionV)>, dels: Seq<u32>)
    ensures
        forall|i: int|
            0 <= i < remove_handles(s, dels).len() ==> exists|j: int|
                0 <= j < s.len() && s[j] == #[trigger] remove_handles(s, dels)[i],
    decreases s.len(),
{
    if s.len() == 0 {
    } else {
        let front = remove_handles(s.drop_last(), dels);
        lemma_remove_handles_sub(s.drop_last(), dels);
        assert forall|i: int| 0 <= i < remove_handles(s, dels).len() implies exists|j: int|
            0 <= j < s.len() && s[j] == #[trigger] remove_handles(s, dels)[i] by {
            if i < front.len() {
                let j = choose|j: int| 0 <= j < s.drop_last().len() && s.drop_last()[j] == front[i];
                assert(s[j] == front[i]);
            } else {
                assert(s[s.len() - 1] == remove_handles(s, dels)[i]);
            }
        }
    }
}

/// Removal keeps handles distinct.
pub proof fn lemma_remove_handles_distinct(s: Seq<(u32, ActionV)>, dels: Seq<u32>)
    requires
        distinct_handles(s),
    ensures
        distinct_handles(remove_handles(s, dels)),
    decreases s.len(),
{
    if s.len() == 0 {
    } else {
        let front = remove_handles(s.drop_last(), dels);
        lemma_remove_handles_distinct(s.drop_last(), dels);
        lemma_remove_handles_sub(s.drop_last(), dels);
        let r = remove_handles(s, dels);
        assert forall|i: int, j: int| 0 <= i < j < r.len() implies r[i].0 != r[j].0 by {
            if j < front.len() {
            } else if !dels.contains(s.last().0) {
                let jj = choose|jj: int|
                    0 <= jj < s.drop_last().len() && s.drop_last()[jj] == front[i];
                assert(s[jj] == front[i]);
                assert(s.last() == s[s.len() - 1]);
            }
        }
    }
}

/// Removal keeps every handle bound.
pub proof fn lemma_remove_handles_le(s: Seq<(u32, ActionV)>, dels: Seq<u32>, n: u32)
    requires
        handles_le(s, n),
    ensures
        handles_le(remove_handles(s, dels), n),
{
    lemma_remove_handles_sub(s, dels);
}

/// Removal cares only which handles the list holds, not how often or in
/// what order.
pub proof fn lemma_remove_handles_same_members(
    s: Seq<(u32, ActionV)>,
    dels1: Seq<u32>,
    dels2: Seq<u32>,
)
    requires
        forall|h: u32| dels1.contains(h) == dels2.contains(h),
    ensures
        remove_handles(s, dels1) == remove_handles(s, dels2),
    decreases s.len(),
{
    if s.len() == 0 {
    } else {
        lemma_remove_handles_same_members(s.drop_last(), dels1, dels2);
    }
}

/// Removing a handle no pair holds removes nothing.
pub proof fn lemma_remove_handles_unknown(s: Seq<(u32, ActionV)>, dels: Seq<u32>, h: u32)
    requires
        forall|i: int| 0 <= i < s.len() ==> (#[trigger] s[i]).0 != h,
    ensures
        remove_handles(s, dels.push(h)) == remove_handles(s, dels),
    decreases s.len(),
{
    if s.len() == 0 {
    } else {
        assert(s.last() == s[s.len() - 1]);
        lemma_remove_handles_unknown(s.drop_last(), dels, h);
        assert(dels.push(h).contains(s.last().0) == dels.contains(s.last().0)) by {
            if dels.contains(s.last().0) {
                let j = choose|j: int| 0 <= j < dels.len() && dels[j] == s.last().0;
                assert(dels.push(h)[j] == s.last().0);
            } else if dels.push(h).contains(s.last().0) {
                let j = choose|j: int| 0 <= j < dels.push(h).len() && dels.push(h)[j] == s.last().0;
                assert(j < dels.len() ==> dels[j] == s.last().0);
            }
        }
    }
}

/// Mathematical model of the scheduler.
#[verifier::ext_equal]
pub struct ActionsV {
    /// The live persistent set, executed every tick.
    pub live: Seq<(u32, ActionV)>,
    /// Additions buffered for the next tick's start.
    pub pending_add: Seq<(u32, ActionV)>,
    /// Removals buffered for the next tick's start.
    pub pending_remove: Seq<u32>,
    /// One-shot actions, drained after each tick.
    pub one_shot: Seq<ActionV>,
    /// The last handle issued; never reused.
    pub index: u32,
}

impl ActionsV {
    /// Handles never repeat and never exceed the issue counter.
    pub open spec fn wf(self) -> bool {
        &&& distinct_handles(self.live + self.pending_add)
        &&& handles_le(self.live + self.pending_add, self.index)
    }

    /// The scheduler after buffered changes take effect: additions merged
    /// into the live set, then the buffered removals applied, both buffers
    /// cleared.
    pub open spec fn apply(self) -> ActionsV {
        ActionsV {
            live: remove_handles(self.live + self.pending_add, self.pending_remove),
            pending_add: Seq::empty(),
            pending_remove: Seq::empty(),
            ..self
        }
    }

    /// This scheduler with another live set.
    pub open spec fn with_live(self, l: Seq<(u32, ActionV)>) -> ActionsV {
        ActionsV { live: l, ..self }
    }
}

/// Removal is idempotent: buffering the removal of a handle twice leaves
/// the scheduler, once the buffers are applied, exactly as buffering it
/// once does.  (Buffering a removal never raises: `remove_action` has no
/// precondition and no failure outcome.)
pub proof fn lemma_remove_action_idempotent(a: ActionsV, h: u32)
    ensures
        (ActionsV { pending_remove: a.pending_remove.push(h).push(h), ..a }).apply() == (ActionsV {
            pending_remove: a.pending_remove.push(h),
            ..a
        }).apply(),
{
    let d1 = a.pending_remove.push(h).push(h);
    let d2 = a.pending_remove.push(h);
    assert forall|q: u32| d1.contains(q) == d2.contains(q) by {
        if d1.contains(q) {
            let j = choose|j: int| 0 <= j < d1.len() && d1[j] == q;
            if j < d2.len() {
                assert(d2[j] == q);
            } else {
                assert(q == h);
                assert(d2[d2.len() - 1] == h);
            }
        }
        if d2.contains(q) {
            let j = choose|j: int| 0 <= j < d2.len() && d2[j] == q;
            assert(d1[j] == q);
        }
    }
    lemma_remove_handles_same_members(a.live + a.pending_add, d1, d2);
}

/// Removing a handle that no registered or buffered action holds leaves the
/// scheduler, once the buffers are applied, exactly as not removing it.
pub proof fn lemma_remove_action_unknown(a: ActionsV, h: u32)
    requires
        forall|i: int|
            0 <= i < (a.live + a.pending_add).len() ==> ((a.live + a.pending_add)[i]).0 != h,
    ensures
        (ActionsV { pending_remove: a.pending_remove.push(h), ..a }).apply() == a.apply(),
{
    lemma_remove_handles_unknown(a.live + a.pending_add, a.pending_remove, h);
}

/// Holds all actions in an Ingame object.
pub struct Actions {
    actions: Vec<(u32, Action)>,
    new_actions: Vec<(u32, Action)>,
    delete_actions: Vec<u32>,
    one_time_actions: Vec<Action>,
    index: u32,
}

impl View for Actions {
    type V = ActionsV;

    closed spec fn view(&self) -> ActionsV {
        ActionsV {
            live: live_view(self.actions@),
            pending_add: live_view(self.new_actions@),
            pending_remove: self.delete_actions@,
            one_shot: acts_view(self.one_time_actions@),
            index: self.index,
        }
    }
}

/// Whether `v` holds the handle `h`.
fn contains_handle(v: &Vec<u32>, h: u32) -> (r: bool)
    ensures
        r == v@.contains(h),
{
    let n = v.len();
    let mut i: usize = 0;
    while i < n
        invariant
            n == v@.len(),
            i <= n,
            forall|j: int| 0 <= j < i ==> v@[j] != h,
        decreases n - i,
    {
        if v[i] == h {
            return true;
        }
        i = i + 1;
    }
    false
}

impl Actions {
    /// The scheduler's handle bookkeeping is sound.
    pub open spec fn inv(&self) -> bool {
        self@.wf()
    }

    /// A fresh scheduler with nothing registered.
    pub fn new() -> (r: Self)
        ensures
            r@ == (ActionsV {
                live: Seq::<(u32, ActionV)>::empty(),
                pending_add: Seq::<(u32, ActionV)>::empty(),
                pending_remove: Seq::<u32>::empty(),
                one_shot: Seq::<ActionV>::empty(),
                index: 0u32,
            }),
            r.inv(),
    {
        let r = Actions {
            actions: Vec::new(),
            new_actions: Vec::new(),
            delete_actions: Vec::new(),
            one_time_actions: Vec::new(),
            index: 0,
        };
        proof {
            assert(live_view(r.actions@) =~= Seq::<(u32, ActionV)>::empty());
            assert(live_view(r.new_actions@) =~= Seq::<(u32, ActionV)>::empty());
            assert(acts_view(r.one_time_actions@) =~= Seq::<ActionV>::empty());
            assert(r@.live + r@.pending_add =~= Seq::<(u32, ActionV)>::empty());
        }
        r
    }

    /// Issue the next handle and buffer the action for the next tick.
    pub fn add_action(&mut self, action: Action) -> (h: u32)
        requires
            old(self).inv(),
            old(self)@.index < u32::MAX,
        ensures
            final(self).inv(),
            h == old(self)@.index + 1,
            final(self)@ == (ActionsV {
                pending_add: old(self)@.pending_add.push((h, action@)),
                index: h,
                ..old(self)@
            }),
    {
        proof {
            lemma_live_view(self.new_actions@);
        }
        self.index = self.index + 1;
        let h = self.index;
        let ghost olds = self@.live + live_view(self.new_actions@);
        self.new_actions.push((h, action));
        proof {
            lemma_live_view(self.new_actions@);
            assert(live_view(self.new_actions@) =~= old(self)@.pending_add.push((h, action@)));
            assert(self@.live + self@.pending_add =~= olds.push((h, action@)));
        }
        h
    }

    /// Buffer a one-shot action for the next tick.
    pub fn add_one_time_action(&mut self, action: Action)
        requires
            old(self).inv(),
        ensures
            final(self).inv(),
            final(self)@ == (ActionsV {
                one_shot: old(self)@.one_shot.push(action@),
                ..old(self)@
            }),
    {
        self.one_time_actions.push(action);
        proof {
            lemma_acts_view(self.one_time_actions@);
            assert(acts_view(self.one_time_actions@) =~= old(self)@.one_shot.push(action@));
        }
    }

    /// Buffer the removal of the handle; removing an unknown handle is a
    /// no-op when the buffers are applied.
    pub fn remove_action(&mut self, index: u32)
        requires
            old(self).inv(),
        ensures
            final(self).inv(),
            final(self)@ == (ActionsV {
                pending_remove: old(self)@.pending_remove.push(index),
                ..old(self)@
            }),
    {
        self.delete_actions.push(index);
    }

    /// Let the buffered additions and removals take effect.
    pub fn apply_actions(&mut self)
        requires
            old(self).inv(),
        ensures
            final(self).inv(),
            final(self)@ == old(self)@.apply(),
    {
        let ghost before = self@;
        proof {
            lemma_live_view(self.actions@);
            lemma_live_view(self.new_actions@);
        }
        // Merge the buffered additions into the live table.
        let mut adds: Vec<(u32, Action)> = Vec::new();
        core::mem::swap(&mut adds, &mut self.new_actions);
        let ghost addsv = live_view(adds@);
        proof {
            assert(live_view(self.new_actions@) =~= Seq::<(u32, ActionV)>::empty());
            assert(addsv == before.pending_add);
            assert(live_view(self.actions@) =~= before.live + addsv.subrange(0, 0));
        }
        while adds.len() > 0
            invariant
                adds@.len() <= addsv.len(),
                live_view(adds@) == addsv.subrange(
                    addsv.len() - adds@.len(),
                    addsv.len() as int,
                ),
                live_view(self.actions@) == before.live + addsv.subrange(
                    0,
                    addsv.len() - adds@.len(),
                ),
                self.new_actions@.len() == 0,
                self.delete_actions@ == before.pending_remove,
                self.one_time_actions@ == old(self).one_time_actions@,
                self.index == before.index,
            decreases adds@.len(),
        {
            let ghost k = addsv.len() - adds@.len();
            let ghost pre = adds@;
            let p = adds.remove(0);
            proof {
                lemma_live_view(pre);
                lemma_live_view(adds@);
                assert(p == pre[0]);
                assert(live_view(pre)[0] == (p.0, p.1@));
                assert(addsv.subrange(k, addsv.len() as int)[0] == addsv[k]);
                assert(addsv[k] == (p.0, p.1@));
                assert(adds@ =~= pre.subrange(1, pre.len() as int));
                assert forall|j: int| 0 <= j < adds@.len() implies live_view(adds@)[j]
                    == addsv.subrange(k + 1, addsv.len() as int)[j] by {
                    assert(live_view(adds@)[j] == (adds@[j].0, adds@[j].1@));
                    assert(adds@[j] == pre[j + 1]);
                    assert(live_view(pre)[j + 1] == (pre[j + 1].0, pre[j + 1].1@));
                    assert(live_view(pre)[j + 1] == addsv.subrange(k, addsv.len() as int)[j + 1]);
                }
                assert(live_view(adds@) =~= addsv.subrange(k + 1, addsv.len() as int));
            }
            let ghost liv = live_view(self.actions@);
            self.actions.push(p);
            proof {
                lemma_live_view(self.actions@);
                assert(live_view(self.actions@) =~= liv.push((p.0, p.1@)));
                assert(live_view(self.actions@) =~= before.live + addsv.subrange(0, k + 1));
            }
        }
        proof {
            assert(addsv.subrange(0, addsv.len() as int) =~= addsv);
            assert(live_view(self.actions@) == before.live + before.pending_add);
        }
        // Apply the buffered removals.
        let mut dels: Vec<u32> = Vec::new();
        core::mem::swap(&mut dels, &mut self.delete_actions);
        let mut merged: Vec<(u32, Action)> = Vec::new();
        core::mem::swap(&mut merged, &mut self.actions);
        let ghost mergedv = live_view(merged@);
        let mut kept: Vec<(u32, Action)> = Vec::new();
        proof {
            assert(live_view(kept@) =~= Seq::<(u32, ActionV)>::empty());
            assert(remove_handles(mergedv.subrange(0, 0), dels@) =~= Seq::<(u32, ActionV)>::empty());
        }
        while merged.len() > 0
            invariant
                merged@.len() <= mergedv.len(),
                live_view(merged@) == mergedv.subrange(
                    mergedv.len() - merged@.len(),
                    mergedv.len() as int,
                ),
                live_view(kept@) == remove_handles(
                    mergedv.subrange(0, mergedv.len() - merged@.len()),
                    dels@,
                ),
            decreases merged@.len(),
        {
            let ghost k = mergedv.len() - merged@.len();
            let ghost pre = merged@;
            let p = merged.remove(0);
            proof {
                lemma_live_view(pre);
                lemma_live_view(merged@);
                assert(p == pre[0]);
                assert(mergedv.subrange(k, mergedv.len() as int)[0] == mergedv[k]);
                assert(mergedv[k] == (p.0, p.1@));
                assert(merged@ =~= pre.subrange(1, pre.len() as int));
                assert forall|j: int| 0 <= j < merged@.len() implies live_view(merged@)[j]
                    == mergedv.subrange(k + 1, mergedv.len() as int)[j] by {
                    assert(live_view(merged@)[j] == (merged@[j].0, merged@[j].1@));
                    assert(merged@[j] == pre[j + 1]);
                    assert(live_view(pre)[j + 1] == (pre[j + 1].0, pre[j + 1].1@));
                    assert(live_view(pre)[j + 1] == mergedv.subrange(k, mergedv.len() as int)[j
                        + 1]);
                }
                assert(live_view(merged@) =~= mergedv.subrange(k + 1, mergedv.len() as int));
                assert(mergedv.subrange(0, k + 1).drop_last() =~= mergedv.subrange(0, k));
                assert(mergedv.subrange(0, k + 1).last() == mergedv[k]);
            }
            if !contains_handle(&dels, p.0) {
                let ghost keptv = live_view(kept@);
                kept.push(p);
                proof {
                    lemma_live_view(kept@);
                    assert(live_view(kept@) =~= keptv.push(mergedv[k]));
                }
            }
        }
        proof {
            assert(mergedv.subrange(0, mergedv.len() as int) =~= mergedv);
        }
        self.actions = kept;
        proof {
            lemma_remove_handles_distinct(before.live + before.pending_add, dels@);
            lemma_remove_handles_le(before.live + before.pending_add, dels@, before.index);
            assert(live_view(self.new_actions@) =~= Seq::<(u32, ActionV)>::empty());
            assert(self@.live + self@.pending_add =~= self@.live);
            assert(self@ =~= before.apply());
        }
    }

    /// Detach the whole live set, leaving the scheduler's slot empty.
    pub fn take_live(&mut self) -> (r: Vec<(u32, Action)>)
        requires
            old(self).inv(),
        ensures
            final(self).inv(),
            live_view(r@) == old(self)@.live,
            final(self)@ == old(self)@.with_live(Seq::<(u32, ActionV)>::empty()),
    {
        let mut r: Vec<(u32, Action)> = Vec::new();
        core::mem::swap(&mut r, &mut self.actions);
        proof {
            assert(live_view(self.actions@) =~= Seq::<(u32, ActionV)>::empty());
            assert(self@.live + self@.pending_add =~= self@.pending_add);
            lemma_sub_concat_left(old(self)@.live, old(self)@.pending_add);
        }
        r
    }

    /// Reattach a live set detached before.
    pub fn put_live(&mut self, v: Vec<(u32, Action)>)
        requires
            old(self).inv(),
            old(self)@.with_live(live_view(v@)).wf(),
        ensures
            final(self).inv(),
            final(self)@ == old(self)@.with_live(live_view(v@)),
    {
        self.actions = v;
    }

    /// Detach the whole one-shot list; it is not restored.
    pub fn take_one_shot(&mut self) -> (r: Vec<Action>)
        requires
            old(self).inv(),
        ensures
            final(self).inv(),
            acts_view(r@) == old(self)@.one_shot,
            final(self)@ == (ActionsV { one_shot: Seq::<ActionV>::empty(), ..old(self)@ }),
    {
        let mut r: Vec<Action> = Vec::new();
        core::mem::swap(&mut r, &mut self.one_time_actions);
        proof {
            assert(acts_view(self.one_time_actions@) =~= Seq::<ActionV>::empty());
        }
        r
    }

    /// Whether another handle can still be issued.
    pub fn handle_space_left(&self) -> (r: bool)
        ensures
            r == (self@.index < u32::MAX),
    {
        self.index < u32::MAX
    }
}

/// The left half of a concatenation keeps its handle facts.
proof fn lemma_sub_concat_left(a: Seq<(u32, ActionV)>, b: Seq<(u32, ActionV)>)
    ensures
        distinct_handles(a + b) ==> distinct_handles(b),
        forall|n: u32| handles_le(a + b, n) ==> handles_le(b, n),
{
    let c = a + b;
    assert forall|n: u32| handles_le(c, n) implies handles_le(b, n) by {
        assert forall|i: int| 0 <= i < b.len() implies (#[trigger] b[i]).0 <= n by {
            assert(c[a.len() + i] == b[i]);
        }
    }
    if distinct_handles(c) {
        assert forall|i: int, j: int| 0 <= i < j < b.len() implies b[i].0 != b[j].0 by {
            assert(c[a.len() + i] == b[i]);
            assert(c[a.len() + j] == b[j]);
        }
    }
}

} // verus!
