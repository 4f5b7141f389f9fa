//! The world a system runs against: the resource store, the command queue and
//! the event channels, with the protocol that prepares, binds and settles a
//! system's declared parameters against them.

use std::collections::HashMap;
use crate::commands::{Command, CommandList, Commands, CustomCommand, execute_commands, all_built_in, executed_in_turn, slots_after_commands};
use crate::events::{ChannelResource, EVENT_CAPACITY};
use crate::params::{
    Arg, Args, BindError, SystemParam, arg_fits, bind_error, channel_kinds, channel_prepared,
    declares_commands, find_bind_error, keyed_by_kind, new_channels_fit, lemma_no_error_from, param_access, param_channel, param_error,
    param_key, queue_after_prepare, queued_by, slots_after_binding, slots_after_settling,
    accesses_clash, clashes_with_earlier, exclusively_bound,
};
use crate::storage::{ResMut, ResOwned, ResourceId, Resources, Slot, shared_access};
use vstd::prelude::*;

verus! {

broadcast use vstd::std_specs::hash::group_hash_axioms;

/// The world systems run against.
#[verifier::reject_recursive_types(V)]
pub struct World<V, C> {
    resources: Resources<V>,
    commands: Option<CommandList<V, C>>,
    channels: HashMap<u128, ChannelResource<V>>,
}

impl<V, C> World<V, C> {
    pub closed spec fn slots(&self) -> Map<u128, Slot<V>> {
        self.resources.slots()
    }

    pub closed spec fn queue(&self) -> Option<Seq<Command<V, C>>> {
        match self.commands {
            Some(q) => Some(q.pending()),
            None => None,
        }
    }

    pub closed spec fn channels(&self) -> Map<u128, ChannelResource<V>> {
        self.channels@
    }

    /// Every channel carries the event kind it is kept under.
    pub open spec fn channels_keyed(&self) -> bool {
        keyed_by_kind(self.channels())
    }

    pub fn new() -> (r: World<V, C>)
        ensures
            r.channels_keyed(),
            r.slots() == Map::<u128, Slot<V>>::empty(),
            r.queue() is None,
            r.channels() == Map::<u128, ChannelResource<V>>::empty(),
    {
        World { resources: Resources::new(), commands: None, channels: HashMap::new() }
    }

    /// The resource store, read-only.
    pub fn resources(&self) -> (r: &Resources<V>)
        ensures
            r.slots() == self.slots(),
    {
        &self.resources
    }

    /// Inserts or replaces the resource under `id`.
    pub fn add_resource(&mut self, id: ResourceId, value: V)
        ensures
            final(self).slots() == crate::storage::slots_after_add(old(self).slots(), id, value),
            final(self).queue() == old(self).queue(),
            final(self).channels() == old(self).channels(),
    {
        self.resources.add(id, value);
    }

    /// Inserts the resource under `id` only when there is none.
    pub fn add_resource_if_not_present(&mut self, id: ResourceId, value: V)
        ensures
            old(self).slots().contains_key(id.id) ==> final(self).slots() == old(self).slots(),
            !old(self).slots().contains_key(id.id) ==> final(self).slots()
                == crate::storage::slots_after_add(old(self).slots(), id, value),
            final(self).queue() == old(self).queue(),
            final(self).channels() == old(self).channels(),
    {
        self.resources.add_if_not_present(id, value);
    }

    /// Removes the resource under `id`, giving back its value when it was held.
    pub fn remove_resource(&mut self, id: ResourceId) -> (r: Option<V>)
        ensures
            final(self).slots() == crate::storage::slots_after_remove(old(self).slots(), id),
            r == (match shared_access(old(self).slots(), id) {
                Ok(Some(v)) => Some(v),
                _ => None::<V>,
            }),
            final(self).queue() == old(self).queue(),
            final(self).channels() == old(self).channels(),
    {
        self.resources.remove(id)
    }

    /// An exclusive loan of the resource under `id`, outside any system.
    pub fn get_resource_mut(&mut self, id: ResourceId) -> (r: Result<Option<ResMut<V>>, crate::storage::BorrowError>)
        ensures
            final(self).slots() == crate::storage::slots_after_lend(old(self).slots(), id),
            match (r, shared_access(old(self).slots(), id)) {
                (Ok(Some(res)), Ok(Some(v))) => res.view_value() == v && res.spec_id() == id,
                (Ok(None), Ok(None)) => true,
                (Err(e), Err(f)) => e == f,
                _ => false,
            },
            final(self).queue() == old(self).queue(),
            final(self).channels() == old(self).channels(),
    {
        self.resources.get_mut(id)
    }

    /// Ends a loan taken with `get_resource_mut`.
    pub fn restore_resource(&mut self, loan: ResMut<V>)
        ensures
            final(self).slots() == crate::storage::slots_after_restore(
                old(self).slots(),
                loan.spec_id(),
                loan.view_value(),
            ),
            final(self).queue() == old(self).queue(),
            final(self).channels() == old(self).channels(),
    {
        self.resources.restore(loan);
    }

    /// Whether the command queue exists.
    pub fn has_command_queue(&self) -> (r: bool)
        ensures
            r == self.queue() is Some,
    {
        self.commands.is_some()
    }

    /// How many commands wait in the queue; zero when there is no queue.
    pub fn pending_commands(&self) -> (r: usize)
        ensures
            r == match self.queue() {
                Some(q) => q.len(),
                None => 0,
            },
    {
        match &self.commands {
            Some(q) => q.len(),
            None => 0,
        }
    }

    /// The number of event channels.
    pub fn channel_count(&self) -> (r: usize)
        ensures
            r == self.channels().len(),
    {
        self.channels.len()
    }

    /// The channel of the event kind `kind`, if it exists.
    pub fn channel(&self, kind: ResourceId) -> (r: Option<&ChannelResource<V>>)
        ensures
            match r {
                Some(c) => self.channels().contains_key(kind.id) && *c == self.channels()[kind.id],
                None => !self.channels().contains_key(kind.id),
            },
    {
        self.channels.get(&kind.id)
    }

    /// Creates the command queue when it is missing.
    pub fn prepare_commands(&mut self)
        ensures
            final(self).queue() == queue_after_prepare(old(self).queue()),
            final(self).slots() == old(self).slots(),
            final(self).channels() == old(self).channels(),
    {
        if self.commands.is_none() {
            self.commands = Some(CommandList::new());
        }
    }

    /// Queues the commands of `batch` at the back, when the queue exists.
    fn enqueue(&mut self, batch: Vec<Command<V, C>>)
        ensures
            final(self).queue() == match old(self).queue() {
                Some(q) => Some(q + batch@),
                None => None,
            },
            final(self).slots() == old(self).slots(),
            final(self).channels() == old(self).channels(),
    {
        let mut batch = batch;
        match &mut self.commands {
            Some(q) => q.append(&mut batch),
            None => {},
        }
    }

    /// Hands out the queued commands, oldest first, leaving the queue empty.
    pub fn take_commands(&mut self) -> (r: Vec<Command<V, C>>)
        ensures
            r@ == match old(self).queue() {
                Some(q) => q,
                None => Seq::<Command<V, C>>::empty(),
            },
            final(self).queue() == match old(self).queue() {
                Some(_) => Some(Seq::<Command<V, C>>::empty()),
                None => None::<Seq<Command<V, C>>>,
            },
            final(self).slots() == old(self).slots(),
            final(self).channels() == old(self).channels(),
    {
        match &mut self.commands {
            Some(q) => q.take(),
            None => Vec::new(),
        }
    }
}

impl<V: Clone, C> World<V, C> {
    /// Creates the channel of the event kind `kind` when it is missing.
    pub fn prepare_channel(&mut self, kind: ResourceId)
        ensures
            channel_prepared(old(self).channels(), final(self).channels(), kind.id),
            final(self).slots() == old(self).slots(),
            final(self).queue() == old(self).queue(),
    {
        if !self.channels.contains_key(&kind.id) {
            self.channels.insert(kind.id, ChannelResource::new(kind, EVENT_CAPACITY));
        }
        proof {
            assert(self.channels@.dom() =~= old(self).channels@.dom().insert(kind.id));
        }
    }

    /// Runs the preparation of every parameter of `ps`: the command queue and the
    /// channels they use are created when missing, and nothing else changes.
    pub fn prepare(&mut self, ps: &Vec<SystemParam>)
        ensures
            final(self).slots() == old(self).slots(),
            final(self).queue() == if declares_commands(ps@) {
                queue_after_prepare(old(self).queue())
            } else {
                old(self).queue()
            },
            final(self).channels().dom() == old(self).channels().dom() + channel_kinds(ps@),
            new_channels_fit(old(self).channels(), final(self).channels()),
            forall|k: u128| #[trigger]
                old(self).channels().contains_key(k) ==> final(self).channels()[k] == old(self).channels()[k],
    {
        let mut j: usize = 0;
        while j < ps.len()
            invariant
                j <= ps@.len(),
                self.slots() == old(self).slots(),
                self.queue() == if declares_commands(ps@.take(j as int)) {
                    queue_after_prepare(old(self).queue())
                } else {
                    old(self).queue()
                },
                self.channels().dom() == old(self).channels().dom() + channel_kinds(ps@.take(j as int)),
                new_channels_fit(old(self).channels(), self.channels()),
                forall|k: u128| #[trigger]
                    old(self).channels().contains_key(k) ==> self.channels()[k] == old(self).channels()[k],
            decreases ps@.len() - j,
        {
            let ghost before = self.channels();
            let ghost pre = ps@.take(j as int);
            let ghost post = ps@.take(j as int + 1);
            match ps[j] {
                SystemParam::Commands => self.prepare_commands(),
                SystemParam::EventReader(k) => self.prepare_channel(k),
                SystemParam::EventWriter(k) => self.prepare_channel(k),
                _ => {},
            }
            proof {
                assert forall|x: int| 0 <= x < pre.len() implies post[x] == pre[x] by {}
                assert(post[j as int] == ps@[j as int]);
                assert(declares_commands(post) == (declares_commands(pre) || ps@[j as int] == SystemParam::Commands)) by {
                    if declares_commands(post) && !declares_commands(pre) {
                        let x = choose|x: int| 0 <= x < post.len() && #[trigger] post[x] == SystemParam::Commands;
                        assert(x == j as int);
                    }
                    if ps@[j as int] == SystemParam::Commands {
                        assert(post[j as int] == SystemParam::Commands);
                    }
                    if declares_commands(pre) {
                        let x = choose|x: int| 0 <= x < pre.len() && #[trigger] pre[x] == SystemParam::Commands;
                        assert(post[x] == SystemParam::Commands);
                    }
                }
                let extra = match param_channel(ps@[j as int]) {
                    Some(k) => set![k.id],
                    None => Set::<u128>::empty(),
                };
                assert(channel_kinds(post) =~= channel_kinds(pre) + extra) by {
                    assert forall|k: u128| channel_kinds(post).contains(k) implies (channel_kinds(pre) + extra).contains(k) by {
                        let x = choose|x: int| 0 <= x < post.len() && #[trigger] param_channel(post[x]) == Some(ResourceId { id: k });
                        if x < j as int {
                            assert(param_channel(pre[x]) == Some(ResourceId { id: k }));
                        }
                    }
                    assert forall|k: u128| (channel_kinds(pre) + extra).contains(k) implies channel_kinds(post).contains(k) by {
                        if channel_kinds(pre).contains(k) {
                            let x = choose|x: int| 0 <= x < pre.len() && #[trigger] param_channel(pre[x]) == Some(ResourceId { id: k });
                            assert(param_channel(post[x]) == Some(ResourceId { id: k }));
                        } else {
                            assert(param_channel(post[j as int]) == Some(ResourceId { id: k }));
                        }
                    }
                }
                assert(self.channels().dom() =~= old(self).channels().dom() + channel_kinds(post));
                assert forall|k: u128| #[trigger] old(self).channels().contains_key(k) implies self.channels()[k] == old(self).channels()[k] by {
                    assert(before.contains_key(k));
                }
            }
            j = j + 1;
        }
        proof {
            assert(ps@.take(j as int) =~= ps@);
        }
    }
}


/// Once parameter `j` is also bound, the exclusive keys are those of the first `j`
/// plus its own.
proof fn lemma_binding_step<V>(ps: Seq<SystemParam>, m: Map<u128, Slot<V>>, j: int)
    requires
        0 <= j < ps.len(),
    ensures
        slots_after_binding(ps.take(j + 1), m) == match param_key(ps[j]) {
            Some(k) => if param_access(ps[j]) is Exclusive && m.contains_key(k.id) {
                slots_after_binding(ps.take(j), m).insert(k.id, Slot::Lent)
            } else {
                slots_after_binding(ps.take(j), m)
            },
            None => slots_after_binding(ps.take(j), m),
        },
{
    let pre = ps.take(j);
    let post = ps.take(j + 1);
    assert forall|x: int| 0 <= x < pre.len() implies post[x] == pre[x] by {}
    assert forall|k: u128| #[trigger] exclusively_bound(post, k) == (exclusively_bound(pre, k) || (
    param_access(ps[j]) is Exclusive && param_key(ps[j]) == Some(ResourceId { id: k }))) by {
        if exclusively_bound(post, k) && !exclusively_bound(pre, k) {
            let x = choose|x: int|
                0 <= x < post.len() && #[trigger] param_access(post[x]) is Exclusive && param_key(
                    post[x],
                ) == Some(ResourceId { id: k });
            if x < j {
                assert(param_access(pre[x]) is Exclusive);
            }
        }
        if exclusively_bound(pre, k) {
            let x = choose|x: int|
                0 <= x < pre.len() && #[trigger] param_access(pre[x]) is Exclusive && param_key(
                    pre[x],
                ) == Some(ResourceId { id: k });
            assert(param_access(post[x]) is Exclusive);
        }
        if param_access(ps[j]) is Exclusive && param_key(ps[j]) == Some(ResourceId { id: k }) {
            assert(param_access(post[j]) is Exclusive);
        }
    }
    match param_key(ps[j]) {
        Some(k) => {
            if param_access(ps[j]) is Exclusive && m.contains_key(k.id) {
                assert(slots_after_binding(post, m) =~= slots_after_binding(pre, m).insert(
                    k.id,
                    Slot::Lent,
                ));
            } else {
                assert(slots_after_binding(post, m) =~= slots_after_binding(pre, m));
            }
        },
        None => {
            assert(slots_after_binding(post, m) =~= slots_after_binding(pre, m));
        },
    }
}

/// A parameter that binds cleanly finds its resource held, not lent, however the
/// parameters before it were bound.
proof fn lemma_bound_key_held<V>(ps: Seq<SystemParam>, m: Map<u128, Slot<V>>, j: int)
    requires
        0 <= j < ps.len(),
        param_error(ps, m, j) is None,
        param_key(ps[j]) is Some,
        m.contains_key(param_key(ps[j])->Some_0.id),
        !(param_access(ps[j]) is Untouched),
    ensures
        slots_after_binding(ps.take(j), m)[param_key(ps[j])->Some_0.id] == m[param_key(
            ps[j],
        )->Some_0.id],
        m[param_key(ps[j])->Some_0.id] is Held,
{
    let k = param_key(ps[j])->Some_0;
    let pre = ps.take(j);
    if exclusively_bound(pre, k.id) {
        let x = choose|x: int|
            0 <= x < pre.len() && #[trigger] param_access(pre[x]) is Exclusive && param_key(pre[x])
                == Some(ResourceId { id: k.id });
        assert(pre[x] == ps[x]);
        assert(accesses_clash(ps[x], ps[j]));
        assert(clashes_with_earlier(ps, j));
    }
}

impl<V: Clone, C> World<V, C> {
    /// Prepares and binds the parameters `ps` of a system. On success every
    /// exclusive parameter holds its loan and the arguments are what each
    /// parameter asks for; on failure the first failing parameter is reported and
    /// no resource is touched.
    pub fn bind(&mut self, ps: &Vec<SystemParam>) -> (r: Result<Args<V, C>, BindError>)
        ensures
            final(self).queue() == if declares_commands(ps@) {
                queue_after_prepare(old(self).queue())
            } else {
                old(self).queue()
            },
            final(self).channels().dom() == old(self).channels().dom() + channel_kinds(ps@),
            new_channels_fit(old(self).channels(), final(self).channels()),
            forall|k: u128| #[trigger]
                old(self).channels().contains_key(k) ==> final(self).channels()[k] == old(self).channels()[k],
            match r {
                Err(e) => bind_error(ps@, old(self).slots()) == Some(e) && final(self).slots()
                    == old(self).slots(),
                Ok(args) => {
                    &&& bind_error(ps@, old(self).slots()) is None
                    &&& final(self).slots() == slots_after_binding(ps@, old(self).slots())
                    &&& args.items().len() == ps@.len()
                    &&& forall|j: int|
                        0 <= j < ps@.len() ==> arg_fits(
                            #[trigger] ps@[j],
                            args.items()[j],
                            old(self).slots(),
                            final(self).channels(),
                        )
                },
            },
    {
        self.prepare(ps);
        match find_bind_error(ps, &self.resources) {
            Some(e) => {
                return Err(e);
            },
            None => {},
        }
        let ghost m = self.slots();
        let mut items: Vec<Arg<V, C>> = Vec::new();
        let mut j: usize = 0;
        while j < ps.len()
            invariant
                j <= ps@.len(),
                m == old(self).slots(),
                bind_error(ps@, m) is None,
                self.resources.slots() == slots_after_binding(ps@.take(j as int), m),
                self.queue() == if declares_commands(ps@) {
                    queue_after_prepare(old(self).queue())
                } else {
                    old(self).queue()
                },
                self.channels().dom() == old(self).channels().dom() + channel_kinds(ps@),
                new_channels_fit(old(self).channels(), self.channels()),
                forall|k: u128| #[trigger]
                    old(self).channels().contains_key(k) ==> self.channels()[k] == old(self).channels()[k],
                items@.len() == j,
                forall|x: int| 0 <= x < j ==> arg_fits(#[trigger] ps@[x], items@[x], m, self.channels()),
            decreases ps@.len() - j,
        {
            let p = ps[j];
            proof {
                lemma_no_error_from(ps@, m, 0, j as int);
                lemma_binding_step(ps@, m, j as int);
                if param_key(p) is Some && m.contains_key(param_key(p)->Some_0.id) && !(param_access(
                    p,
                ) is Untouched) {
                    lemma_bound_key_held(ps@, m, j as int);
                }
            }
            let arg: Arg<V, C> = match p {
                SystemParam::Res(k) | SystemParam::OptionRes(k) => {
                    if self.resources.contains(k) {
                        Arg::Res(k)
                    } else {
                        Arg::Absent
                    }
                },
                SystemParam::ResOwned(k) | SystemParam::OptionResOwned(k) => {
                    match self.resources.get(k) {
                        Ok(Some(res)) => Arg::ResOwned(ResOwned::new(res.get().clone())),
                        _ => Arg::Absent,
                    }
                },
                SystemParam::ResMut(k) | SystemParam::OptionResMut(k) => {
                    match self.resources.get_mut(k) {
                        Ok(Some(loan)) => Arg::ResMut(loan),
                        _ => Arg::Absent,
                    }
                },
                SystemParam::Commands => Arg::Commands(Commands::new()),
                SystemParam::EventReader(k) => {
                    proof {
                        assert(param_channel(ps@[j as int]) == Some(ResourceId { id: k.id }));
                        assert(channel_kinds(ps@).contains(k.id));
                    }
                    match self.channels.get(&k.id) {
                        Some(c) => Arg::EventReader(c.reader()),
                        None => Arg::Absent,
                    }
                },
                SystemParam::EventWriter(k) => {
                    proof {
                        assert(param_channel(ps@[j as int]) == Some(ResourceId { id: k.id }));
                        assert(channel_kinds(ps@).contains(k.id));
                    }
                    match self.channels.get(&k.id) {
                        Some(c) => Arg::EventWriter(c.writer()),
                        None => Arg::Absent,
                    }
                },
            };
            items.push(arg);
            j = j + 1;
        }
        proof {
            assert(ps@.take(j as int) =~= ps@);
        }
        Ok(Args::from_items(items))
    }
}


impl<V, C> World<V, C> {
    /// Ends a run: every loan among `args` goes back to the store, and what the
    /// command handles queued joins the back of the queue, in argument order.
    pub fn settle(&mut self, args: Args<V, C>)
        ensures
            final(self).slots() == slots_after_settling(old(self).slots(), args.items()),
            final(self).queue() == match old(self).queue() {
                Some(q) => Some(q + queued_by(args.items())),
                None => None,
            },
            final(self).channels() == old(self).channels(),
    {
        let items = args.into_items();
        let ghost all = items@;
        let mut rest = items;
        let total: usize = rest.len();
        let mut done: usize = 0;
        while rest.len() > 0
            invariant
                total == all.len(),
                done + rest@.len() == all.len(),
                rest@ == all.skip(done as int),
                self.slots() == slots_after_settling(old(self).slots(), all.take(done as int)),
                self.queue() == match old(self).queue() {
                    Some(q) => Some(q + queued_by(all.take(done as int))),
                    None => None,
                },
                self.channels() == old(self).channels(),
            decreases rest@.len(),
        {
            let item = rest.remove(0);
            proof {
                assert(item == all[done as int]);
                assert(all.take(done as int + 1).drop_last() =~= all.take(done as int));
                assert(all.take(done as int + 1).last() == all[done as int]);
                assert(rest@ =~= all.skip(done as int + 1));
            }
            match item {
                Arg::ResMut(loan) => {
                    self.resources.restore(loan);
                    proof {
                        match old(self).queue() {
                            Some(q) => {
                                assert(q + queued_by(all.take(done as int + 1)) =~= q + queued_by(all.take(done as int)));
                            },
                            None => {},
                        }
                    }
                },
                Arg::Commands(c) => {
                    self.enqueue(c.into_queued());
                    proof {
                        match old(self).queue() {
                            Some(q) => {
                                assert(q + queued_by(all.take(done as int + 1)) =~= q + queued_by(all.take(done as int)) + c.queued());
                            },
                            None => {},
                        }
                    }
                },
                _ => {
                    proof {
                        match old(self).queue() {
                            Some(q) => {
                                assert(q + queued_by(all.take(done as int + 1)) =~= q + queued_by(all.take(done as int)));
                            },
                            None => {},
                        }
                    }
                },
            }
            done = done + 1;
        }
        proof {
            assert(all.take(done as int) =~= all);
        }
    }
}

/// Whether `after` is `before` once the command queue was drained and its
/// commands executed, oldest first: the queue is left empty, the channels are
/// kept, every built-in command had its stated effect in turn, and when none is
/// custom the slots are exactly the commands' effects in order.
pub open spec fn drained<V, C>(before: World<V, C>, after: World<V, C>) -> bool {
    &&& after.queue() == match before.queue() {
        Some(_) => Some(Seq::<Command<V, C>>::empty()),
        None => None::<Seq<Command<V, C>>>,
    }
    &&& after.channels() == before.channels()
    &&& match before.queue() {
        Some(q) => {
            &&& all_built_in(q) ==> after.slots() == slots_after_commands(before.slots(), q)
            &&& exists|ms: Seq<Map<u128, Slot<V>>>|
                #[trigger] executed_in_turn(q, ms) && ms[0] == before.slots() && ms.last()
                    == after.slots()
        },
        None => after.slots() == before.slots(),
    }
}

impl<V, C: CustomCommand<V>> World<V, C> {
    /// Drains the command queue and executes the commands, oldest first.
    pub fn handle_commands(&mut self)
        ensures
            drained(*old(self), *final(self)),
    {
        let commands = self.take_commands();
        execute_commands(&mut self.resources, commands);
        proof {
            if old(self).queue() is None {
                assert(commands@.len() == 0);
                assert(all_built_in(commands@));
                let ms = choose|ms: Seq<Map<u128, Slot<V>>>| #[trigger] executed_in_turn(commands@, ms) && ms[0] == old(self).slots() && ms.last() == self.slots();
                assert(ms.len() == 1);
            }
        }
    }
}

} // verus!
