//! The application: plugins that register resources and systems, and the steps
//! of the pump loop (startup once, then ticks until the quit marker appears).

use crate::commands::CustomCommand;
use crate::params::{BindError, SystemParam};
use crate::scheduler::{
    Label, Scheduler, StageView, SystemFailure, added_to_stage, events_ran_in_turn,
    failed_positions, failures_in, plan_systems, ran_in_turn, run_plan, shape, startup_plan,
    without_startup,
};
use crate::storage::{Resource, ResourceId, oid_name_uuid};
use crate::system::{FunctionSystem, SystemFn, WindowEventFn, WindowEventSystemFunction};
use crate::world::{World, drained};
use vstd::prelude::*;

verus! {

/// Where a plugin is in its life.
#[derive(Clone, Copy, PartialEq, Eq, Structural, Debug)]
pub enum PluginState {
    Startup,
    Exiting,
    Running,
    Paused,
}

/// An installed plugin, kept with its state.
pub struct PluginLifetime<P> {
    pub plugin: P,
    pub plugin_state: PluginState,
}

impl<P> PluginLifetime<P> {
    /// The record of a plugin that was just built.
    pub fn startup(plugin: P) -> (r: PluginLifetime<P>)
        ensures
            r.plugin == plugin,
            r.plugin_state == PluginState::Startup,
    {
        PluginLifetime { plugin, plugin_state: PluginState::Startup }
    }

    pub fn state(&self) -> (r: PluginState)
        ensures
            r == self.plugin_state,
    {
        self.plugin_state
    }
}

/// A unit of composition: it registers resources and systems when built. The
/// application keeps every plugin it installed, so all share one type.
pub trait Plugin<V, C, F, G>: Sized {
    /// What building may do to the application, from `before` to `after`. A plugin
    /// that states nothing allows anything.
    open spec fn spec_build(&self, before: App<V, C, F, G, Self>, after: App<V, C, F, G, Self>) -> bool {
        true
    }

    fn build(&self, app: &mut App<V, C, F, G, Self>)
        ensures
            self.spec_build(*old(app), *final(app)),
    ;
}

/// The marker resource whose presence ends the pump loop.
pub struct Quit;

/// The name the quit marker is stored under.
pub open spec fn quit_id() -> u128 {
    oid_name_uuid("Quit"@)
}

impl Resource for Quit {
    fn id() -> ResourceId {
        ResourceId::named("Quit")
    }
}

/// The application: its scheduler and the plugins installed so far.
#[verifier::reject_recursive_types(V)]
pub struct App<V, C, F, G, P> {
    plugins: Vec<PluginLifetime<P>>,
    scheduler: Scheduler<V, C, F, G>,
}

impl<V, C, F, G, P> App<V, C, F, G, P> {
    pub closed spec fn spec_scheduler(&self) -> Scheduler<V, C, F, G> {
        self.scheduler
    }

    /// The installed plugins, in installation order.
    pub closed spec fn plugins(&self) -> Seq<PluginLifetime<P>> {
        self.plugins@
    }

    pub fn new() -> (r: App<V, C, F, G, P>)
        ensures
            r.plugins().len() == 0,
            r.spec_scheduler().wf(),
            r.spec_scheduler().stages_view() == Seq::<StageView<F>>::empty(),
            r.spec_scheduler().window_systems() == Seq::<WindowEventSystemFunction<G>>::empty(),
            r.spec_scheduler().spec_world().slots().is_empty(),
            r.spec_scheduler().spec_world().queue() is None,
            r.spec_scheduler().spec_world().channels_keyed(),
    {
        App { plugins: Vec::new(), scheduler: Scheduler::new() }
    }

    /// The scheduler, read-only.
    pub fn scheduler(&self) -> (r: &Scheduler<V, C, F, G>)
        ensures
            *r == self.spec_scheduler(),
    {
        &self.scheduler
    }

    /// The number of plugins installed.
    pub fn plugins_len(&self) -> (r: usize)
        ensures
            r == self.plugins().len(),
    {
        self.plugins.len()
    }

    /// Registers systems under the stage of `label`; no system runs.
    pub fn add_systems<L: Label>(&mut self, label: &L, systems: Vec<FunctionSystem<F>>)
        ensures
            old(self).spec_scheduler().wf() ==> final(self).spec_scheduler().wf(),
            final(self).plugins() == old(self).plugins(),
            final(self).spec_scheduler().spec_world() == old(self).spec_scheduler().spec_world(),
            final(self).spec_scheduler().window_systems() == old(self).spec_scheduler().window_systems(),
            old(self).spec_scheduler().wf() ==> added_to_stage(
                old(self).spec_scheduler().stages_view(),
                label.spec_order(),
                systems@,
                final(self).spec_scheduler().stages_view(),
            ),
    {
        self.scheduler.add_systems(label, systems);
    }

    /// Registers a window-event system after those already registered.
    pub fn add_window_event_system(&mut self, system: WindowEventSystemFunction<G>)
        ensures
            final(self).plugins() == old(self).plugins(),
            final(self).spec_scheduler().window_systems() == old(self).spec_scheduler().window_systems().push(
                system,
            ),
            final(self).spec_scheduler().stages_view() == old(self).spec_scheduler().stages_view(),
            final(self).spec_scheduler().spec_world() == old(self).spec_scheduler().spec_world(),
    {
        self.scheduler.add_window_event_system(system);
    }

    /// Inserts or replaces a resource directly, outside any tick.
    pub fn add_resource(&mut self, id: ResourceId, value: V)
        ensures
            final(self).plugins() == old(self).plugins(),
            final(self).spec_scheduler().spec_world().slots() == crate::storage::slots_after_add(
                old(self).spec_scheduler().spec_world().slots(),
                id,
                value,
            ),
            final(self).spec_scheduler().spec_world().queue() == old(self).spec_scheduler().spec_world().queue(),
            final(self).spec_scheduler().spec_world().channels() == old(self).spec_scheduler().spec_world().channels(),
            final(self).spec_scheduler().stages_view() == old(self).spec_scheduler().stages_view(),
            final(self).spec_scheduler().window_systems() == old(self).spec_scheduler().window_systems(),
    {
        self.scheduler.add_resource(id, value);
    }

    /// Whether the quit marker is present.
    pub fn should_close(&self) -> (r: bool)
        ensures
            r == self.spec_scheduler().spec_world().slots().contains_key(quit_id()),
    {
        self.scheduler.world().resources().contains(ResourceId::named("Quit"))
    }
}

impl<V, C, F, G, P: Plugin<V, C, F, G>> App<V, C, F, G, P> {
    /// Builds `plugin` right away (its build may register anything), then keeps it,
    /// in the startup state, after the plugins installed so far.
    pub fn add_plugin(&mut self, plugin: P)
        ensures
            exists|mid: App<V, C, F, G, P>|
                #[trigger] plugin.spec_build(*old(self), mid) && final(self).plugins() == mid.plugins().push(
                    (PluginLifetime::<P> { plugin, plugin_state: PluginState::Startup }),
                ) && final(self).spec_scheduler() == mid.spec_scheduler(),
    {
        plugin.build(self);
        let ghost mid = *self;
        self.plugins.push(PluginLifetime::startup(plugin));
        proof {
            assert(self.plugins() =~= mid.plugins().push(
                (PluginLifetime::<P> { plugin, plugin_state: PluginState::Startup }),
            ));
        }
    }
}

impl<V: Clone, C, F, G, P> App<V, C, F, G, P> {
    /// Runs every window-event system on one external event, as
    /// `Scheduler::run_events` states. Commands they queue wait for the next tick.
    pub fn run_event<E: Clone, L>(&mut self, event: E, event_loop: &L) -> (r: Vec<(usize, BindError)>)
        where
            G: WindowEventFn<V, C, E, L>,
        ensures
            final(self).plugins() == old(self).plugins(),
            final(self).spec_scheduler().stages_view() == old(self).spec_scheduler().stages_view(),
            final(self).spec_scheduler().window_params() == old(self).spec_scheduler().window_params(),
            exists|ws: Seq<World<V, C>>, outs: Seq<Result<(), BindError>>|
                #[trigger] events_ran_in_turn(old(self).spec_scheduler().window_systems(), event, *event_loop, ws, outs) && ws[0]
                    == old(self).spec_scheduler().spec_world() && ws.last() == final(self).spec_scheduler().spec_world() && r@ == failed_positions(outs),
    {
        let ghost w0 = self.scheduler.spec_world();
        let ghost wp = self.scheduler.window_systems();
        let r = self.scheduler.run_events(event, event_loop);
        proof {
            let (ws, outs) = choose|ws: Seq<World<V, C>>, outs: Seq<Result<(), BindError>>|
                #[trigger] events_ran_in_turn(wp, event, *event_loop, ws, outs) && ws[0] == w0 && ws.last()
                    == self.scheduler.spec_world() && r@ == failed_positions(outs);
            assert(events_ran_in_turn(wp, event, *event_loop, ws, outs));
            assert(wp == old(self).spec_scheduler().window_systems());
            assert(ws[0] == old(self).spec_scheduler().spec_world());
            assert(ws.last() == self.spec_scheduler().spec_world());
            assert(r@ == failed_positions(outs));
        }
        r
    }
}

impl<V: Clone, C: CustomCommand<V>, F: SystemFn<V, C>, G, P> App<V, C, F, G, P> {
    /// Runs the startup stage once, as `Scheduler::startup` states, then applies
    /// what it queued.
    pub fn startup(&mut self) -> (r: Vec<SystemFailure>)
        ensures
            final(self).plugins() == old(self).plugins(),
            final(self).spec_scheduler().stages_view() == without_startup(
                old(self).spec_scheduler().stages_view(),
            ),
            final(self).spec_scheduler().window_systems() == old(self).spec_scheduler().window_systems(),
            exists|ws: Seq<World<V, C>>, outs: Seq<Result<(), BindError>>|
                #[trigger] ran_in_turn(
                    plan_systems(startup_plan(old(self).spec_scheduler().stages_view())),
                    ws,
                    outs,
                ) && ws[0] == old(self).spec_scheduler().spec_world() && drained(
                    ws.last(),
                    final(self).spec_scheduler().spec_world(),
                ) && r@ == failures_in(startup_plan(old(self).spec_scheduler().stages_view()), outs),
    {
        let ghost w0 = self.scheduler.spec_world();
        let ghost v = self.scheduler.stages_view();
        let failures = self.scheduler.startup();
        let ghost mid = self.scheduler.spec_world();
        self.scheduler.handle_commands();
        proof {
            let (ws, outs) = choose|ws: Seq<World<V, C>>, outs: Seq<Result<(), BindError>>|
                #[trigger] ran_in_turn(plan_systems(startup_plan(v)), ws, outs) && ws[0] == w0
                    && ws.last() == mid && failures@ == failures_in(startup_plan(v), outs);
            assert(ran_in_turn(plan_systems(startup_plan(v)), ws, outs));
        }
        failures
    }

    /// One turn of the pump loop after the external events: applies the commands
    /// they queued, runs the stages as `Scheduler::run` states, applies what the
    /// stages queued, and tells whether the quit marker is present.
    pub fn tick(&mut self) -> (r: (bool, Vec<SystemFailure>))
        ensures
            final(self).plugins() == old(self).plugins(),
            shape(final(self).spec_scheduler().stages_view()) == shape(old(self).spec_scheduler().stages_view()),
            final(self).spec_scheduler().window_systems() == old(self).spec_scheduler().window_systems(),
            exists|ws: Seq<World<V, C>>, outs: Seq<Result<(), BindError>>|
                drained(old(self).spec_scheduler().spec_world(), ws[0]) && #[trigger] ran_in_turn(
                    plan_systems(run_plan(old(self).spec_scheduler().stages_view())),
                    ws,
                    outs,
                ) && drained(ws.last(), final(self).spec_scheduler().spec_world())
                    && r.1@ == failures_in(run_plan(old(self).spec_scheduler().stages_view()), outs),
            r.0 == final(self).spec_scheduler().spec_world().slots().contains_key(quit_id()),
    {
        let ghost w0 = self.scheduler.spec_world();
        let ghost v = self.scheduler.stages_view();
        self.scheduler.handle_commands();
        let ghost w1 = self.scheduler.spec_world();
        let failures = self.scheduler.run();
        let ghost w2 = self.scheduler.spec_world();
        self.scheduler.handle_commands();
        proof {
            let (ws, outs) = choose|ws: Seq<World<V, C>>, outs: Seq<Result<(), BindError>>|
                #[trigger] ran_in_turn(plan_systems(run_plan(v)), ws, outs) && ws[0] == w1
                    && ws.last() == w2 && failures@ == failures_in(run_plan(v), outs);
            assert(ran_in_turn(plan_systems(run_plan(v)), ws, outs));
            assert(drained(w0, ws[0]));
        }
        (self.should_close(), failures)
    }
}

} // verus!
