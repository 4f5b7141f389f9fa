//! Systems: callables with a declared parameter list, run by preparing and binding
//! those parameters against the world, calling, and settling.

use crate::storage::{Resources, Slot};
use crate::commands::Command;
use crate::params::{
    Arg, Args, BindError, SystemParam, bind_error, channel_kinds, declares_commands,
    exclusively_bound, lemma_settling_keeps_held_all, new_channels_fit, arg_fits, queued_by, queue_after_prepare, slots_after_binding,
    slots_after_settling,
};
use crate::world::World;
use vstd::prelude::*;

verus! {

/// The body of a system: what it does with its bound arguments. Shared arguments
/// are read from `resources`.
pub trait SystemFn<V, C> {
    /// What a call may do: from the bound arguments `before` to the arguments
    /// `after` it hands back, reading the store's slots `resources`. A body that
    /// states nothing allows anything.
    open spec fn spec_call(
        &self,
        resources: Map<u128, Slot<V>>,
        before: Seq<Arg<V, C>>,
        after: Seq<Arg<V, C>>,
    ) -> bool {
        true
    }

    fn call(&mut self, resources: &Resources<V>, args: &mut Args<V, C>)
        ensures
            old(self).spec_call(resources.slots(), old(args).items(), final(args).items()),
    ;
}

/// The body of a window-event system: it also receives the event and a handle on
/// the event loop.
pub trait WindowEventFn<V, C, E, L> {
    /// What a call may do with `event` and `event_loop`: from the bound arguments
    /// `before` to the arguments `after` it hands back, reading the slots
    /// `resources`. A body that states nothing allows anything.
    open spec fn spec_call(
        &self,
        event: E,
        event_loop: L,
        resources: Map<u128, Slot<V>>,
        before: Seq<Arg<V, C>>,
        after: Seq<Arg<V, C>>,
    ) -> bool {
        true
    }

    fn call(&mut self, event: E, event_loop: &L, resources: &Resources<V>, args: &mut Args<V, C>)
        ensures
            old(self).spec_call(event, *event_loop, resources.slots(), old(args).items(), final(args).items()),
    ;
}

/// A schedulable unit.
pub trait System<V, C> {
    fn run(&mut self, world: &mut World<V, C>) -> Result<(), BindError>;
}

/// A unit run once per external event.
pub trait WindowEventSystem<V, C, E, L> {
    fn run(&mut self, event: E, event_loop: &L, world: &mut World<V, C>) -> Result<(), BindError>;
}

/// The queue once the parameters `ps` were prepared.
pub open spec fn prepared_queue<V, C>(ps: Seq<SystemParam>, q: Option<Seq<Command<V, C>>>) -> Option<
    Seq<Command<V, C>>,
> {
    if declares_commands(ps) {
        queue_after_prepare(q)
    } else {
        q
    }
}

/// What one run of a system with parameters `ps` did to the world, from `before`
/// to `after`, as far as the binding protocol decides it: the result is the first
/// binding failure, if any; on failure no resource changed; on success the set
/// of resources is the same, every held resource not taken exclusively is
/// unchanged, and the queue only grew at its back.
pub open spec fn ran<V, C>(
    ps: Seq<SystemParam>,
    before: World<V, C>,
    after: World<V, C>,
    r: Result<(), BindError>,
) -> bool {
    &&& r == match bind_error(ps, before.slots()) {
        Some(e) => Err::<(), BindError>(e),
        None => Ok(()),
    }
    &&& after.channels().dom() == before.channels().dom() + channel_kinds(ps)
    &&& new_channels_fit(before.channels(), after.channels())
    &&& before.channels_keyed() ==> after.channels_keyed()
    &&& forall|k: u128| #[trigger]
        before.channels().contains_key(k) ==> after.channels()[k] == before.channels()[k]
    &&& r is Err ==> after.slots() == before.slots() && after.queue() == prepared_queue(
        ps,
        before.queue(),
    )
    &&& r is Ok ==> {
        &&& after.slots().dom() == before.slots().dom()
        &&& forall|k: u128| #[trigger]
            before.slots().contains_key(k) && before.slots()[k] is Held && !exclusively_bound(
                ps,
                k,
            ) ==> after.slots()[k] == before.slots()[k]
        &&& match prepared_queue(ps, before.queue()) {
            Some(q) => after.queue() is Some && q.is_prefix_of(after.queue()->Some_0),
            None => after.queue() is None,
        }
    }
}

/// Whether `b` are the arguments the parameters `ps` bind to against the slots `m`
/// and the channels `chans`.
pub open spec fn args_fit<V: Clone, C>(
    ps: Seq<SystemParam>,
    b: Seq<Arg<V, C>>,
    m: Map<u128, Slot<V>>,
    chans: Map<u128, crate::events::ChannelResource<V>>,
) -> bool {
    &&& b.len() == ps.len()
    &&& forall|j: int| 0 <= j < ps.len() ==> arg_fits(#[trigger] ps[j], b[j], m, chans)
}

/// Whether a successful run with parameters `ps` that handed the arguments `b` to
/// its body and got `a` back left the world `after`: the loans in `a` went back to
/// the store and the commands queued in `a` joined the back of the queue.
pub open spec fn settled_into<V, C>(
    ps: Seq<SystemParam>,
    before: World<V, C>,
    a: Seq<Arg<V, C>>,
    after: World<V, C>,
) -> bool {
    &&& after.slots() == slots_after_settling(slots_after_binding(ps, before.slots()), a)
    &&& after.queue() == match prepared_queue(ps, before.queue()) {
        Some(q) => Some(q + queued_by(a)),
        None => None,
    }
}

/// Whether one run of `sys` took the world from `before` to `after` with outcome
/// `r`: the binding as `ran` states, and on success the body called once on
/// exactly the bound arguments, what it handed back settled into the world.
pub open spec fn system_ran<V: Clone, C, F: SystemFn<V, C>>(
    sys: FunctionSystem<F>,
    before: World<V, C>,
    after: World<V, C>,
    r: Result<(), BindError>,
) -> bool {
    &&& ran(sys.spec_params(), before, after, r)
    &&& r is Ok ==> exists|b: Seq<Arg<V, C>>, a: Seq<Arg<V, C>>|
        #[trigger] sys.body().spec_call(slots_after_binding(sys.spec_params(), before.slots()), b, a)
            && args_fit(sys.spec_params(), b, before.slots(), after.channels())
            && settled_into(sys.spec_params(), before, a, after)
}

/// Whether one run of the window-event system `sys` on `event` and `event_loop`
/// took the world from `before` to `after` with outcome `r`, as `system_ran`
/// states for a system.
pub open spec fn event_system_ran<V: Clone, C, E, L, G: WindowEventFn<V, C, E, L>>(
    sys: WindowEventSystemFunction<G>,
    event: E,
    event_loop: L,
    before: World<V, C>,
    after: World<V, C>,
    r: Result<(), BindError>,
) -> bool {
    &&& ran(sys.spec_params(), before, after, r)
    &&& r is Ok ==> exists|b: Seq<Arg<V, C>>, a: Seq<Arg<V, C>>|
        #[trigger] sys.body().spec_call(
            event,
            event_loop,
            slots_after_binding(sys.spec_params(), before.slots()),
            b,
            a,
        ) && args_fit(sys.spec_params(), b, before.slots(), after.channels()) && settled_into(
            sys.spec_params(),
            before,
            a,
            after,
        )
}

/// A system made of a parameter list and a body.
pub struct FunctionSystem<F> {
    params: Vec<SystemParam>,
    f: F,
}

impl<F> FunctionSystem<F> {
    pub closed spec fn spec_params(&self) -> Seq<SystemParam> {
        self.params@
    }

    pub closed spec fn body(&self) -> F {
        self.f
    }

    pub fn new(params: Vec<SystemParam>, f: F) -> (r: FunctionSystem<F>)
        ensures
            r.spec_params() == params@,
            r.body() == f,
    {
        FunctionSystem { params, f }
    }

    pub fn params(&self) -> (r: &Vec<SystemParam>)
        ensures
            r@ == self.spec_params(),
    {
        &self.params
    }

    /// Prepares and binds the parameters, calls the body, and settles.
    pub fn run_in<V: Clone, C>(&mut self, world: &mut World<V, C>) -> (r: Result<(), BindError>)
        where
            F: SystemFn<V, C>,
        ensures
            final(self).spec_params() == old(self).spec_params(),
            system_ran(*old(self), *old(world), *final(world), r),
    {
        match world.bind(&self.params) {
            Err(e) => Err(e),
            Ok(mut args) => {
                let ghost bound = world.slots();
                let ghost b = args.items();
                self.f.call(world.resources(), &mut args);
                let ghost items = args.items();
                world.settle(args);
                proof {
                    settled(self.params@, *old(world), bound, *world, items);
                    assert(old(self).body().spec_call(bound, b, items));
                    assert(args_fit(self.params@, b, old(world).slots(), world.channels()));
                    assert(settled_into(self.params@, *old(world), items, *world));
                }
                Ok(())
            },
        }
    }
}

/// The settling of a successful run keeps what `ran` asks of it.
proof fn settled<V, C>(
    ps: Seq<SystemParam>,
    before: World<V, C>,
    bound: Map<u128, Slot<V>>,
    after: World<V, C>,
    items: Seq<Arg<V, C>>,
)
    requires
        bound == slots_after_binding(ps, before.slots()),
        after.slots() == slots_after_settling(bound, items),
    ensures
        after.slots().dom() == before.slots().dom(),
        forall|k: u128| #[trigger]
            before.slots().contains_key(k) && before.slots()[k] is Held && !exclusively_bound(
                ps,
                k,
            ) ==> after.slots()[k] == before.slots()[k],
{
    lemma_settling_keeps_held_all(bound, items);
    assert(bound.dom() =~= before.slots().dom());
}

impl<V: Clone, C, F: SystemFn<V, C>> System<V, C> for FunctionSystem<F> {
    fn run(&mut self, world: &mut World<V, C>) -> Result<(), BindError> {
        self.run_in(world)
    }
}

/// A window-event system made of a parameter list and a body.
pub struct WindowEventSystemFunction<F> {
    params: Vec<SystemParam>,
    f: F,
}

impl<F> WindowEventSystemFunction<F> {
    pub closed spec fn spec_params(&self) -> Seq<SystemParam> {
        self.params@
    }

    pub closed spec fn body(&self) -> F {
        self.f
    }

    pub fn new(params: Vec<SystemParam>, f: F) -> (r: WindowEventSystemFunction<F>)
        ensures
            r.spec_params() == params@,
            r.body() == f,
    {
        WindowEventSystemFunction { params, f }
    }

    pub fn params(&self) -> (r: &Vec<SystemParam>)
        ensures
            r@ == self.spec_params(),
    {
        &self.params
    }

    /// Prepares and binds the parameters, calls the body with the event, and settles.
    pub fn run_in<V: Clone, C, E, L>(&mut self, event: E, event_loop: &L, world: &mut World<V, C>) -> (r:
        Result<(), BindError>)
        where
            F: WindowEventFn<V, C, E, L>,
        ensures
            final(self).spec_params() == old(self).spec_params(),
            event_system_ran(*old(self), event, *event_loop, *old(world), *final(world), r),
    {
        match world.bind(&self.params) {
            Err(e) => Err(e),
            Ok(mut args) => {
                let ghost bound = world.slots();
                let ghost b = args.items();
                let ghost ev = event;
                self.f.call(event, event_loop, world.resources(), &mut args);
                let ghost items = args.items();
                world.settle(args);
                proof {
                    settled(self.params@, *old(world), bound, *world, items);
                    assert(old(self).body().spec_call(ev, *event_loop, bound, b, items));
                    assert(args_fit(self.params@, b, old(world).slots(), world.channels()));
                    assert(settled_into(self.params@, *old(world), items, *world));
                }
                Ok(())
            },
        }
    }
}

impl<V: Clone, C, E, L, F: WindowEventFn<V, C, E, L>> WindowEventSystem<V, C, E, L> for WindowEventSystemFunction<F> {
    fn run(&mut self, event: E, event_loop: &L, world: &mut World<V, C>) -> Result<(), BindError> {
        self.run_in(event, event_loop, world)
    }
}

} // verus!
