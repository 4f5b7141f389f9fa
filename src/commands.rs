//! Deferred mutations: commands queued while systems run and applied in order
//! at the flush points between stages.

use crate::storage::{slots_after_add, slots_after_remove, ResourceId, Resources, Slot};
use vstd::prelude::*;

verus! {

/// Inserts (or replaces) a resource when executed.
pub struct AddResource<V> {
    pub id: ResourceId,
    pub resource: V,
}

/// Removes a resource when executed.
#[derive(Clone, Copy, PartialEq, Eq, Structural, Debug)]
pub struct RemoveResource {
    pub id: ResourceId,
}

impl RemoveResource {
    pub fn new(id: ResourceId) -> (r: RemoveResource)
        ensures
            r.id == id,
    {
        RemoveResource { id }
    }
}

/// An action of the application's own, run against the store when its command
/// is executed.
pub trait CustomCommand<V>: Sized {
    fn execute(self, resources: &mut Resources<V>);
}

/// One deferred mutation.
pub enum Command<V, C> {
    Add(AddResource<V>),
    Remove(RemoveResource),
    Custom(C),
}

/// The effect of a built-in command on the slots of a store; a custom command is
/// the application's own and has no effect stated here.
pub open spec fn slots_after_command<V, C>(m: Map<u128, Slot<V>>, c: Command<V, C>) -> Map<
    u128,
    Slot<V>,
> {
    match c {
        Command::Add(a) => slots_after_add(m, a.id, a.resource),
        Command::Remove(r) => slots_after_remove(m, r.id),
        Command::Custom(_) => m,
    }
}

/// The effect of executing `cs` in order, first to last.
pub open spec fn slots_after_commands<V, C>(m: Map<u128, Slot<V>>, cs: Seq<Command<V, C>>) -> Map<
    u128,
    Slot<V>,
>
    decreases cs.len(),
{
    if cs.len() == 0 {
        m
    } else {
        slots_after_command(slots_after_commands(m, cs.drop_last()), cs.last())
    }
}

/// Whether every command of `cs` is built in (none is custom).
pub open spec fn all_built_in<V, C>(cs: Seq<Command<V, C>>) -> bool {
    forall|i: int| 0 <= i < cs.len() ==> !(#[trigger] cs[i] is Custom)
}

/// Executing a concatenation is executing its first part, then its second: commands
/// take effect in the order they were queued, whoever queued them.
pub proof fn lemma_commands_in_queue_order<V, C>(
    m: Map<u128, Slot<V>>,
    first: Seq<Command<V, C>>,
    second: Seq<Command<V, C>>,
)
    ensures
        slots_after_commands(m, first + second) == slots_after_commands(
            slots_after_commands(m, first),
            second,
        ),
    decreases second.len(),
{
    if second.len() == 0 {
        assert(first + second =~= first);
    } else {
        assert((first + second).drop_last() =~= first + second.drop_last());
        assert((first + second).last() == second.last());
        lemma_commands_in_queue_order(m, first, second.drop_last());
    }
}

/// Whether `c` is a built-in command on the key `k`.
pub open spec fn command_touches<V, C>(c: Command<V, C>, k: u128) -> bool {
    match c {
        Command::Add(a) => a.id.id == k,
        Command::Remove(r) => r.id.id == k,
        Command::Custom(_) => false,
    }
}

/// After the commands `cs`, the key of an insertion that no later built-in
/// command touches holds the inserted value.
pub proof fn lemma_last_add_wins<V, C>(
    m: Map<u128, Slot<V>>,
    cs: Seq<Command<V, C>>,
    i: int,
    k: ResourceId,
    v: V,
)
    requires
        0 <= i < cs.len(),
        cs[i] == Command::<V, C>::Add(AddResource { id: k, resource: v }),
        forall|j: int| i < j < cs.len() ==> !(#[trigger] command_touches(cs[j], k.id)),
    ensures
        slots_after_commands(m, cs).contains_key(k.id),
        slots_after_commands(m, cs)[k.id] == Slot::Held(v),
    decreases cs.len(),
{
    if i < cs.len() - 1 {
        let prev = cs.drop_last();
        assert forall|j: int| i < j < prev.len() implies !(#[trigger] command_touches(prev[j], k.id)) by {
            assert(prev[j] == cs[j]);
        }
        lemma_last_add_wins(m, prev, i, k, v);
        assert(!command_touches(cs[cs.len() - 1], k.id));
    }
}

/// The queue of pending commands, in the order they were queued.
pub struct CommandList<V, C> {
    commands: Vec<Command<V, C>>,
}

impl<V, C> CommandList<V, C> {
    pub closed spec fn pending(&self) -> Seq<Command<V, C>> {
        self.commands@
    }

    pub fn new() -> (r: CommandList<V, C>)
        ensures
            r.pending() == Seq::<Command<V, C>>::empty(),
    {
        CommandList { commands: Vec::new() }
    }

    pub fn len(&self) -> (r: usize)
        ensures
            r == self.pending().len(),
    {
        self.commands.len()
    }

    /// Moves the commands of `batch` to the back of the queue, keeping their order.
    pub fn append(&mut self, batch: &mut Vec<Command<V, C>>)
        ensures
            final(self).pending() == old(self).pending() + old(batch)@,
            final(batch)@ == Seq::<Command<V, C>>::empty(),
    {
        self.commands.append(batch);
    }

    /// Hands out every pending command, oldest first, and leaves the queue empty.
    pub fn take(&mut self) -> (r: Vec<Command<V, C>>)
        ensures
            r@ == old(self).pending(),
            final(self).pending() == Seq::<Command<V, C>>::empty(),
    {
        let mut out: Vec<Command<V, C>> = Vec::new();
        std::mem::swap(&mut out, &mut self.commands);
        out
    }
}

/// The handle a system queues commands through; what it queued joins the store's
/// queue when the system returns.
pub struct Commands<V, C> {
    queued: Vec<Command<V, C>>,
}

impl<V, C> Commands<V, C> {
    pub closed spec fn queued(&self) -> Seq<Command<V, C>> {
        self.queued@
    }

    pub fn new() -> (r: Commands<V, C>)
        ensures
            r.queued() == Seq::<Command<V, C>>::empty(),
    {
        Commands { queued: Vec::new() }
    }

    /// Queues the insertion of `resource` under `id`.
    pub fn insert_resource(&mut self, id: ResourceId, resource: V)
        ensures
            final(self).queued() == old(self).queued().push(
                Command::Add(AddResource { id, resource }),
            ),
    {
        self.queued.push(Command::Add(AddResource { id, resource }));
    }

    /// Queues the removal of the resource under `id`.
    pub fn remove_resource(&mut self, id: ResourceId)
        ensures
            final(self).queued() == old(self).queued().push(Command::Remove(RemoveResource { id })),
    {
        self.queued.push(Command::Remove(RemoveResource::new(id)));
    }

    /// Queues a custom command.
    pub fn add_command(&mut self, command: C)
        ensures
            final(self).queued() == old(self).queued().push(Command::Custom(command)),
    {
        self.queued.push(Command::Custom(command));
    }

    pub(crate) fn push(&mut self, command: Command<V, C>)
        ensures
            final(self).queued() == old(self).queued().push(command),
    {
        self.queued.push(command);
    }

    pub(crate) fn into_queued(self) -> (r: Vec<Command<V, C>>)
        ensures
            r@ == self.queued(),
    {
        self.queued
    }
}

/// Whether executing `cs` in order took the slots through the states `ms`: each
/// built-in command had its stated effect; a custom command's effect is its own.
pub open spec fn executed_in_turn<V, C>(cs: Seq<Command<V, C>>, ms: Seq<Map<u128, Slot<V>>>) -> bool {
    &&& ms.len() == cs.len() + 1
    &&& forall|i: int|
        0 <= i < cs.len() && !(cs[i] is Custom) ==> #[trigger] ms[i + 1] == slots_after_command(
            ms[i],
            cs[i],
        )
}

/// Executes `commands` against the store, first to last. Where none is custom, the
/// store ends as the commands' effects in order make it.
pub fn execute_commands<V, C: CustomCommand<V>>(
    resources: &mut Resources<V>,
    commands: Vec<Command<V, C>>,
)
    ensures
        all_built_in(commands@) ==> final(resources).slots() == slots_after_commands(
            old(resources).slots(),
            commands@,
        ),
        exists|ms: Seq<Map<u128, Slot<V>>>|
            #[trigger] executed_in_turn(commands@, ms) && ms[0] == old(resources).slots() && ms.last()
                == final(resources).slots(),
{
    let ghost all = commands@;
    let ghost start = resources.slots();
    let mut rest = commands;
    let total: usize = rest.len();
    let mut done: usize = 0;
    let ghost mut ms: Seq<Map<u128, Slot<V>>> = seq![start];
    while rest.len() > 0
        invariant
            total == all.len(),
            executed_in_turn(all.take(done as int), ms),
            ms[0] == start,
            ms.last() == resources.slots(),
            done + rest@.len() == all.len(),
            rest@ == all.skip(done as int),
            all_built_in(all) ==> resources.slots() == slots_after_commands(
                start,
                all.take(done as int),
            ),
        decreases rest@.len(),
    {
        let c = rest.remove(0);
        proof {
            assert(c == all[done as int]);
            assert(all.take(done as int + 1).drop_last() =~= all.take(done as int));
            assert(all.take(done as int + 1).last() == all[done as int]);
            assert(rest@ =~= all.skip(done as int + 1));
        }
        match c {
            Command::Add(a) => {
                let AddResource { id, resource } = a;
                resources.add(id, resource);
            },
            Command::Remove(r) => {
                let _ = resources.remove(r.id);
            },
            Command::Custom(x) => {
                x.execute(resources);
            },
        }
        proof {
            let ms2 = ms.push(resources.slots());
            let t = all.take(done as int + 1);
            assert forall|i: int|
                0 <= i < t.len() && !(t[i] is Custom) implies #[trigger] ms2[i + 1] == slots_after_command(ms2[i], t[i]) by {
                if i < done as int {
                    assert(t[i] == all.take(done as int)[i]);
                }
            }
            ms = ms2;
        }
        done = done + 1;
    }
    proof {
        assert(all.take(done as int) =~= all);
    }
}

} // verus!
