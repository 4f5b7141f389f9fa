//! The scheduler: systems grouped into stages ordered by priority, window-event
//! systems, and the world they all run against.

use crate::commands::{AddResource, Command, command_touches, lemma_last_add_wins, slots_after_commands};
use crate::storage::Slot;
use crate::world::drained;
use crate::storage::{BorrowError, Res, ResMut, ResourceId};
use crate::system::{FunctionSystem, SystemFn, WindowEventFn, WindowEventSystemFunction, event_system_ran, ran, system_ran};
use crate::params::{BindError, SystemParam};
use crate::world::World;
use vstd::prelude::*;

verus! {

/// The priority of the startup stage, which runs once before every other stage.
pub const STARTUP_ORDER: usize = 0;

/// A stage: a name and a priority; stages run in ascending priority.
pub trait Label {
    spec fn spec_order(&self) -> usize;

    fn label(&self) -> &str;

    fn order(&self) -> (r: usize)
        ensures
            r == self.spec_order(),
    ;
}

/// Runs once, before everything else.
pub struct Startup;

/// Runs first in every tick.
pub struct PreUpdate;

/// Runs second in every tick.
pub struct Update;

/// Runs last in every tick.
pub struct PostUpdate;

impl Label for Startup {
    open spec fn spec_order(&self) -> usize {
        STARTUP_ORDER
    }

    fn label(&self) -> &str {
        "Startup"
    }

    fn order(&self) -> (r: usize) {
        STARTUP_ORDER
    }
}

impl Label for PreUpdate {
    open spec fn spec_order(&self) -> usize {
        1
    }

    fn label(&self) -> &str {
        "PreUpdate"
    }

    fn order(&self) -> (r: usize) {
        1
    }
}

impl Label for Update {
    open spec fn spec_order(&self) -> usize {
        2
    }

    fn label(&self) -> &str {
        "Update"
    }

    fn order(&self) -> (r: usize) {
        2
    }
}

impl Label for PostUpdate {
    open spec fn spec_order(&self) -> usize {
        3
    }

    fn label(&self) -> &str {
        "PostUpdate"
    }

    fn order(&self) -> (r: usize) {
        3
    }
}

/// One stage as the scheduler sees it: its priority and its systems, in
/// registration order.
pub type StageView<F> = (usize, Seq<FunctionSystem<F>>);

/// One run of a system: stage priority, position in the stage, the system.
pub type Step<F> = (usize, nat, FunctionSystem<F>);

/// Whether the stage priorities of `view` strictly ascend.
pub open spec fn ascending<F>(view: Seq<StageView<F>>) -> bool {
    forall|i: int, j: int| 0 <= i < j < view.len() ==> #[trigger] view[i].0 < #[trigger] view[j].0
}

/// The runs of one stage: each of its systems, in registration order.
pub open spec fn stage_plan<F>(order: usize, systems: Seq<FunctionSystem<F>>) -> Seq<Step<F>> {
    Seq::new(systems.len(), |p: int| (order, p as nat, systems[p]))
}

/// The runs of one tick over the stages `view`: every stage but the startup
/// stage, in the order of `view`.
pub open spec fn run_plan<F>(view: Seq<StageView<F>>) -> Seq<Step<F>>
    decreases view.len(),
{
    if view.len() == 0 {
        Seq::<Step<F>>::empty()
    } else {
        run_plan(view.drop_last()) + if view.last().0 == STARTUP_ORDER {
            Seq::<Step<F>>::empty()
        } else {
            stage_plan(view.last().0, view.last().1)
        }
    }
}

/// Whether `view` starts with the startup stage.
pub open spec fn has_startup<F>(view: Seq<StageView<F>>) -> bool {
    view.len() > 0 && view[0].0 == STARTUP_ORDER
}

/// The runs of the startup: every startup system, in registration order.
pub open spec fn startup_plan<F>(view: Seq<StageView<F>>) -> Seq<Step<F>> {
    if has_startup(view) {
        stage_plan(STARTUP_ORDER, view[0].1)
    } else {
        Seq::<Step<F>>::empty()
    }
}

/// The stages once the startup stage is gone.
pub open spec fn without_startup<F>(view: Seq<StageView<F>>) -> Seq<StageView<F>> {
    if has_startup(view) {
        view.drop_first()
    } else {
        view
    }
}

/// The systems of the runs of `plan`, in order.
pub open spec fn plan_systems<F>(plan: Seq<Step<F>>) -> Seq<FunctionSystem<F>> {
    plan.map_values(|s: Step<F>| s.2)
}

/// Whether the systems `ps`, run one after another, took the world through the
/// states `ws` with the outcomes `outs`: run `i` went from `ws[i]` to `ws[i + 1]`
/// as `system_ran` states, its body called on its bound arguments.
pub open spec fn ran_in_turn<V: Clone, C, F: SystemFn<V, C>>(
    ps: Seq<FunctionSystem<F>>,
    ws: Seq<World<V, C>>,
    outs: Seq<Result<(), BindError>>,
) -> bool {
    &&& ws.len() == ps.len() + 1
    &&& outs.len() == ps.len()
    &&& forall|i: int| 0 <= i < ps.len() ==> #[trigger] system_ran(ps[i], ws[i], ws[i + 1], outs[i])
}

/// The runs of `plan` whose outcome in `outs` is a failure, in order.
pub open spec fn failures_in<F>(plan: Seq<Step<F>>, outs: Seq<Result<(), BindError>>) -> Seq<SystemFailure>
    decreases plan.len(),
{
    if plan.len() == 0 {
        Seq::<SystemFailure>::empty()
    } else {
        failures_in(plan.drop_last(), outs.take(plan.len() - 1)) + match outs[plan.len() - 1] {
            Err(e) => seq![SystemFailure { stage: plan.last().0, position: plan.last().1 as usize, error: e }],
            Ok(_) => Seq::<SystemFailure>::empty(),
        }
    }
}

/// The positions whose outcome in `outs` is a failure, with the failure, in order.
pub open spec fn failed_positions(outs: Seq<Result<(), BindError>>) -> Seq<(usize, BindError)>
    decreases outs.len(),
{
    if outs.len() == 0 {
        Seq::<(usize, BindError)>::empty()
    } else {
        failed_positions(outs.drop_last()) + match outs.last() {
            Err(e) => seq![((outs.len() - 1) as usize, e)],
            Ok(_) => Seq::<(usize, BindError)>::empty(),
        }
    }
}

proof fn lemma_failures_concat<F>(
    a: Seq<Step<F>>,
    oa: Seq<Result<(), BindError>>,
    b: Seq<Step<F>>,
    ob: Seq<Result<(), BindError>>,
)
    requires
        oa.len() == a.len(),
        ob.len() == b.len(),
    ensures
        failures_in(a + b, oa + ob) == failures_in(a, oa) + failures_in(b, ob),
    decreases b.len(),
{
    if b.len() == 0 {
        assert(a + b =~= a);
        assert(oa + ob =~= oa);
        assert(oa.take(a.len() as int) =~= oa);
        assert(failures_in(a, oa) + failures_in(b, ob) =~= failures_in(a, oa));
    } else {
        let n = (a + b).len();
        assert((a + b).drop_last() =~= a + b.drop_last());
        assert((oa + ob).take(n - 1) =~= oa + ob.take(b.len() - 1));
        assert((oa + ob)[n - 1] == ob[b.len() - 1]);
        lemma_failures_concat(a, oa, b.drop_last(), ob.take(b.len() - 1));
        assert(failures_in(a + b, oa + ob) =~= failures_in(a, oa) + failures_in(b, ob));
    }
}

proof fn lemma_chain_concat<V: Clone, C, F: SystemFn<V, C>>(
    p1: Seq<FunctionSystem<F>>,
    w1: Seq<World<V, C>>,
    o1: Seq<Result<(), BindError>>,
    p2: Seq<FunctionSystem<F>>,
    w2: Seq<World<V, C>>,
    o2: Seq<Result<(), BindError>>,
)
    requires
        ran_in_turn(p1, w1, o1),
        ran_in_turn(p2, w2, o2),
        w1.last() == w2[0],
    ensures
        ran_in_turn(p1 + p2, w1 + w2.drop_first(), o1 + o2),
        (w1 + w2.drop_first())[0] == w1[0],
        (w1 + w2.drop_first()).last() == w2.last(),
{
    let ws = w1 + w2.drop_first();
    let n = p1.len();
    assert forall|i: int| 0 <= i < (p1 + p2).len() implies #[trigger] system_ran((p1 + p2)[i], ws[i], ws[i + 1], (o1 + o2)[i]) by {
        if i < n {
            assert(system_ran(p1[i], w1[i], w1[i + 1], o1[i]));
            if i + 1 == n {
                assert(ws[i + 1] == w2[0]);
            }
        } else {
            assert(system_ran(p2[i - n], w2[i - n], w2[i - n + 1], o2[i - n]));
        }
    }
}

/// In a chain of runs no resource appears or disappears.
pub proof fn lemma_chain_keeps_keys<V: Clone, C, F: SystemFn<V, C>>(
    ps: Seq<FunctionSystem<F>>,
    ws: Seq<World<V, C>>,
    outs: Seq<Result<(), BindError>>,
    t: int,
)
    requires
        ran_in_turn(ps, ws, outs),
        0 <= t < ws.len(),
    ensures
        ws[t].slots().dom() == ws[0].slots().dom(),
    decreases t,
{
    if t > 0 {
        let i = t - 1;
        lemma_chain_keeps_keys(ps, ws, outs, i);
        assert(system_ran(ps[i], ws[i], ws[i + 1], outs[i]));
        if outs[i] is Err {
            assert(ws[i + 1].slots() == ws[i].slots());
        }
    }
}

proof fn lemma_run_plan_orders<F>(l: Seq<StageView<F>>)
    ensures
        forall|i: int|
            0 <= i < run_plan(l).len() ==> #[trigger] run_plan(l)[i].0 != STARTUP_ORDER && exists|s: int|
                0 <= s < l.len() && run_plan(l)[i].0 == l[s].0,
    decreases l.len(),
{
    if l.len() > 0 {
        let prev = l.drop_last();
        lemma_run_plan_orders(prev);
        assert forall|i: int| 0 <= i < run_plan(l).len() implies #[trigger] run_plan(l)[i].0 != STARTUP_ORDER && exists|s: int|
            0 <= s < l.len() && run_plan(l)[i].0 == l[s].0 by {
            if i < run_plan(prev).len() {
                assert(run_plan(l)[i] == run_plan(prev)[i]);
                let s = choose|s: int| 0 <= s < prev.len() && run_plan(prev)[i].0 == prev[s].0;
                assert(l[s] == prev[s]);
            } else {
                assert(run_plan(l)[i].0 == l[l.len() - 1].0);
            }
        }
    }
}

proof fn lemma_run_plan_sorted<F>(l: Seq<StageView<F>>)
    requires
        ascending(l),
    ensures
        forall|i: int, j: int|
            0 <= i < j < run_plan(l).len() ==> #[trigger] run_plan(l)[i].0 <= #[trigger] run_plan(l)[j].0,
    decreases l.len(),
{
    if l.len() > 0 {
        let prev = l.drop_last();
        assert(ascending(prev)) by {
            assert forall|a: int, b: int| 0 <= a < b < prev.len() implies #[trigger] prev[a].0 < #[trigger] prev[b].0 by {
                assert(prev[a] == l[a] && prev[b] == l[b]);
            }
        }
        lemma_run_plan_sorted(prev);
        lemma_run_plan_orders(prev);
        let n = run_plan(prev).len();
        assert forall|i: int, j: int| 0 <= i < j < run_plan(l).len() implies #[trigger] run_plan(l)[i].0 <= #[trigger] run_plan(l)[j].0 by {
            if j < n {
                assert(run_plan(l)[i] == run_plan(prev)[i] && run_plan(l)[j] == run_plan(prev)[j]);
            } else if i >= n {
                assert(run_plan(l)[i].0 == l.last().0 && run_plan(l)[j].0 == l.last().0);
            } else {
                assert(run_plan(l)[i] == run_plan(prev)[i]);
                assert(run_plan(prev)[i].0 != STARTUP_ORDER);
                let s = choose|s: int| 0 <= s < prev.len() && run_plan(prev)[i].0 == prev[s].0;
                assert(l[s] == prev[s]);
                assert(l[s].0 < l[l.len() - 1].0);
                assert(run_plan(l)[j].0 == l.last().0);
            }
        }
    }
}

proof fn lemma_run_plan_skips_startup<F>(l: Seq<StageView<F>>)
    requires
        has_startup(l),
    ensures
        run_plan(l.drop_first()) == run_plan(l),
    decreases l.len(),
{
    if l.len() == 1 {
        assert(l.drop_first() =~= Seq::<StageView<F>>::empty());
        assert(l.drop_last() =~= Seq::<StageView<F>>::empty());
    } else {
        let prev = l.drop_last();
        assert(prev[0] == l[0]);
        lemma_run_plan_skips_startup(prev);
        assert(l.drop_first().drop_last() =~= prev.drop_first());
        assert(l.drop_first().last() == l.last());
    }
}

/// The order systems run in. The startup runs only startup systems; a tick runs
/// no startup system, and runs its stages in ascending priority, each stage's
/// systems in registration order; once the startup stage is dropped, ticks run
/// exactly as before and a further startup runs nothing.
pub proof fn lemma_stage_order<F>(l: Seq<StageView<F>>)
    requires
        ascending(l),
    ensures
        forall|i: int| 0 <= i < startup_plan(l).len() ==> (#[trigger] startup_plan(l)[i]).0 == STARTUP_ORDER,
        forall|i: int| 0 <= i < run_plan(l).len() ==> (#[trigger] run_plan(l)[i]).0 != STARTUP_ORDER,
        forall|i: int, j: int|
            0 <= i < j < run_plan(l).len() ==> #[trigger] run_plan(l)[i].0 <= #[trigger] run_plan(l)[j].0,
        run_plan(without_startup(l)) == run_plan(l),
        startup_plan(without_startup(l)) == Seq::<Step<F>>::empty(),
{
    lemma_run_plan_orders(l);
    lemma_run_plan_sorted(l);
    if has_startup(l) {
        lemma_run_plan_skips_startup(l);
        if l.len() > 1 {
            assert(l[1].0 > l[0].0);
        }
    }
}

/// A resource whose insertion is queued during a tick is absent from the world
/// before every run of that tick, since a run keeps the set of resources; once the
/// queue is drained it holds the queued value, unless a later command in the
/// queue touched it.
pub proof fn lemma_insert_deferred<V: Clone, C, F: SystemFn<V, C>>(
    ps: Seq<FunctionSystem<F>>,
    ws: Seq<World<V, C>>,
    outs: Seq<Result<(), BindError>>,
    q: Seq<Command<V, C>>,
    i: int,
    k: ResourceId,
    v: V,
)
    requires
        ran_in_turn(ps, ws, outs),
        !ws[0].slots().contains_key(k.id),
        0 <= i < q.len(),
        q[i] == Command::<V, C>::Add(AddResource { id: k, resource: v }),
        forall|j: int| i < j < q.len() ==> !(#[trigger] command_touches(q[j], k.id)),
    ensures
        forall|t: int| 0 <= t < ws.len() ==> !(#[trigger] ws[t]).slots().contains_key(k.id),
        slots_after_commands(ws.last().slots(), q).contains_key(k.id),
        slots_after_commands(ws.last().slots(), q)[k.id] == Slot::Held(v),
{
    assert forall|t: int| 0 <= t < ws.len() implies !(#[trigger] ws[t]).slots().contains_key(k.id) by {
        lemma_chain_keeps_keys(ps, ws, outs, t);
    }
    lemma_last_add_wins(ws.last().slots(), q, i, k, v);
}

proof fn lemma_run_plan_step<F>(l: Seq<StageView<F>>, i: int)
    requires
        0 <= i < l.len(),
    ensures
        run_plan(l.take(i + 1)) == run_plan(l.take(i)) + if l[i].0 == STARTUP_ORDER {
            Seq::<Step<F>>::empty()
        } else {
            stage_plan(l[i].0, l[i].1)
        },
{
    assert(l.take(i + 1).drop_last() =~= l.take(i));
    assert(l.take(i + 1).last() == l[i]);
}

proof fn lemma_chain_empty<V: Clone, C, F: SystemFn<V, C>>(w: World<V, C>)
    ensures
        ran_in_turn(Seq::<FunctionSystem<F>>::empty(), seq![w], Seq::<Result<(), BindError>>::empty()),
        failures_in(Seq::<Step<F>>::empty(), Seq::<Result<(), BindError>>::empty()) == Seq::<SystemFailure>::empty(),
        failed_positions(Seq::<Result<(), BindError>>::empty()) == Seq::<(usize, BindError)>::empty(),
{
}

/// A system that could not run because its parameters could not be bound.
#[derive(Clone, Copy, PartialEq, Eq, Structural, Debug)]
pub struct SystemFailure {
    pub stage: usize,
    pub position: usize,
    pub error: BindError,
}

/// One stage's systems.
struct Stage<F> {
    order: usize,
    systems: Vec<FunctionSystem<F>>,
}

/// The parameter lists of `systems`, in order.
pub open spec fn params_of<F>(systems: Seq<FunctionSystem<F>>) -> Seq<Seq<SystemParam>> {
    systems.map_values(|f: FunctionSystem<F>| f.spec_params())
}

/// The stages with each system replaced by its parameter list.
pub open spec fn shape<F>(view: Seq<StageView<F>>) -> Seq<(usize, Seq<Seq<SystemParam>>)> {
    view.map_values(|s: StageView<F>| (s.0, params_of(s.1)))
}

/// The parameter lists of window-event `systems`, in order.
pub open spec fn event_params_of<G>(systems: Seq<WindowEventSystemFunction<G>>) -> Seq<Seq<SystemParam>> {
    systems.map_values(|f: WindowEventSystemFunction<G>| f.spec_params())
}

/// The scheduler, which owns the world.
#[verifier::reject_recursive_types(V)]
pub struct Scheduler<V, C, F, G> {
    stages: Vec<Stage<F>>,
    window_systems: Vec<WindowEventSystemFunction<G>>,
    world: World<V, C>,
}

impl<V, C, F, G> Scheduler<V, C, F, G> {
    /// The stages in priority order, each with its systems in registration order.
    pub closed spec fn stages_view(&self) -> Seq<StageView<F>> {
        self.stages@.map_values(|s: Stage<F>| (s.order, s.systems@))
    }

    /// The window-event systems, in registration order.
    pub closed spec fn window_systems(&self) -> Seq<WindowEventSystemFunction<G>> {
        self.window_systems@
    }

    /// The window-event systems' parameter lists, in registration order.
    pub open spec fn window_params(&self) -> Seq<Seq<SystemParam>> {
        event_params_of(self.window_systems())
    }

    pub closed spec fn spec_world(&self) -> World<V, C> {
        self.world
    }

    /// Well-formedness: the stage priorities strictly ascend.
    pub open spec fn wf(&self) -> bool {
        ascending(self.stages_view())
    }

    pub fn new() -> (r: Scheduler<V, C, F, G>)
        ensures
            r.wf(),
            r.stages_view() == Seq::<StageView<F>>::empty(),
            r.window_systems() == Seq::<WindowEventSystemFunction<G>>::empty(),
            r.spec_world().slots() == Map::<u128, crate::storage::Slot<V>>::empty(),
            r.spec_world().queue() is None,
            r.spec_world().channels_keyed(),
    {
        let r = Scheduler { stages: Vec::new(), window_systems: Vec::new(), world: World::new() };
        proof {
            assert(r.stages_view() =~= Seq::<StageView<F>>::empty());
            assert(r.window_systems() =~= Seq::<WindowEventSystemFunction<G>>::empty());
        }
        r
    }

    /// The world, read-only.
    pub fn world(&self) -> (r: &World<V, C>)
        ensures
            *r == self.spec_world(),
    {
        &self.world
    }
}

/// Whether `after` is `before` once the systems `added`, in this order, joined the
/// stage of priority `order`: appended to that stage when it exists, else in a new
/// stage.
pub open spec fn added_to_stage<F>(
    before: Seq<StageView<F>>,
    order: usize,
    added: Seq<FunctionSystem<F>>,
    after: Seq<StageView<F>>,
) -> bool {
    &&& forall|i: int|
        0 <= i < before.len() && #[trigger] before[i].0 == order ==> after == before.update(
            i,
            (order, before[i].1 + added),
        )
    &&& (forall|i: int| 0 <= i < before.len() ==> #[trigger] before[i].0 != order) ==> exists|
        p: int,
    |
        0 <= p <= before.len() && after == before.insert(p, (order, added))
}

impl<V, C, F, G> Scheduler<V, C, F, G> {
    /// Registers `systems` under the stage of `label`, after the systems already
    /// there; a stage seen for the first time takes its place by priority. No
    /// system runs and the world is untouched.
    pub fn add_systems<L: Label>(&mut self, label: &L, systems: Vec<FunctionSystem<F>>)
        ensures
            old(self).wf() ==> final(self).wf(),
            final(self).spec_world() == old(self).spec_world(),
            final(self).window_systems() == old(self).window_systems(),
            old(self).wf() ==> added_to_stage(
                old(self).stages_view(),
                label.spec_order(),
                systems@,
                final(self).stages_view(),
            ),
    {
        let order = label.order();
        let ghost l = self.stages_view();
        let ghost ordered = ascending(l);
        let ghost added = systems@;
        let mut i: usize = 0;
        while i < self.stages.len() && self.stages[i].order < order
            invariant
                i <= self.stages@.len(),
                l == self.stages_view(),
                ordered == ascending(l),
                ordered ==> forall|x: int| 0 <= x < i ==> #[trigger] l[x].0 < order,
            decreases self.stages@.len() - i,
        {
            proof {
                assert(l[i as int].0 == self.stages@[i as int].order);
            }
            i = i + 1;
        }
        if i < self.stages.len() && self.stages[i].order == order {
            proof {
                assert(l[i as int].0 == order);
            }
            let ghost st = self.stages@;
            let mut stage = self.stages.remove(i);
            let ghost before = stage.systems@;
            let mut systems = systems;
            stage.systems.append(&mut systems);

            self.stages.insert(i, stage);
            proof {
                assert(self.stages@ =~= st.update(i as int, stage));
                assert(self.stages_view() =~= l.update(i as int, (order, l[i as int].1 + added)));
                if ordered {
                    let nl = self.stages_view();
                    assert forall|a: int, b: int| 0 <= a < b < nl.len() implies #[trigger] nl[a].0 < #[trigger] nl[b].0 by {
                        assert(nl[a].0 == l[a].0 && nl[b].0 == l[b].0);
                    }
                    assert forall|x: int| 0 <= x < l.len() && #[trigger] l[x].0 == order implies x == i as int by {
                        if x < i as int {
                        } else if x > i as int {
                            assert(l[i as int].0 < l[x].0);
                        }
                    }
                }
            }
        } else {
            proof {
                if i < self.stages@.len() {
                    assert(l[i as int].0 == self.stages@[i as int].order);
                }
            }
            let ghost st = self.stages@;
            let stage = Stage { order, systems };
            self.stages.insert(i, stage);
            proof {
                assert(self.stages@ =~= st.insert(i as int, stage));
                assert(self.stages_view() =~= l.insert(i as int, (order, added)));
                assert(0 <= i <= l.len() && self.stages_view() == l.insert(i as int, (order, added)));
                if ordered {
                    let nl = self.stages_view();
                    assert forall|a: int, b: int| 0 <= a < b < nl.len() implies #[trigger] nl[a].0 < #[trigger] nl[b].0 by {
                        if b < i as int {
                            assert(nl[a] == l[a] && nl[b] == l[b]);
                        } else if b == i as int {
                            assert(nl[a] == l[a]);
                        } else if a < i as int {
                            assert(nl[a] == l[a] && nl[b] == l[b - 1]);
                            if i < l.len() {
                                assert(l[i as int].0 > order);
                                assert(l[i as int].0 <= l[b - 1].0);
                            }
                        } else if a == i as int {
                            assert(nl[b] == l[b - 1]);
                            assert(l[i as int].0 > order);
                            assert(l[i as int].0 <= l[b - 1].0);
                        } else {
                            assert(nl[a] == l[a - 1] && nl[b] == l[b - 1]);
                        }
                    }
                }
            }
        }
    }

    /// Registers one window-event system, after those already registered.
    pub fn add_window_event_system(&mut self, system: WindowEventSystemFunction<G>)
        ensures
            final(self).window_systems() == old(self).window_systems().push(system),
            final(self).stages_view() == old(self).stages_view(),
            final(self).spec_world() == old(self).spec_world(),
    {
        self.window_systems.push(system);
        proof {
            assert(self.window_systems() =~= old(self).window_systems().push(system));
        }
    }

    /// Inserts or replaces a resource directly, bypassing the command queue.
    pub fn add_resource(&mut self, id: ResourceId, value: V)
        ensures
            final(self).spec_world().slots() == crate::storage::slots_after_add(
                old(self).spec_world().slots(),
                id,
                value,
            ),
            final(self).spec_world().queue() == old(self).spec_world().queue(),
            final(self).spec_world().channels() == old(self).spec_world().channels(),
            final(self).stages_view() == old(self).stages_view(),
            final(self).window_systems() == old(self).window_systems(),
    {
        self.world.add_resource(id, value);
    }

    /// Inserts a prepared key and value pair.
    pub fn insert_entity(&mut self, entity: (ResourceId, V))
        ensures
            final(self).spec_world().slots() == crate::storage::slots_after_add(
                old(self).spec_world().slots(),
                entity.0,
                entity.1,
            ),
            final(self).spec_world().queue() == old(self).spec_world().queue(),
            final(self).spec_world().channels() == old(self).spec_world().channels(),
            final(self).stages_view() == old(self).stages_view(),
            final(self).window_systems() == old(self).window_systems(),
    {
        let (id, value) = entity;
        self.world.add_resource(id, value);
    }

    /// A shared view of the resource under `id`.
    pub fn get_resource(&self, id: ResourceId) -> (r: Result<Option<Res<'_, V>>, BorrowError>)
        ensures
            match (r, crate::storage::shared_access(self.spec_world().slots(), id)) {
                (Ok(Some(res)), Ok(Some(v))) => res.view_value() == v && res.spec_id() == id,
                (Ok(None), Ok(None)) => true,
                (Err(e), Err(f)) => e == f,
                _ => false,
            },
    {
        self.world.resources().get(id)
    }

    /// An exclusive loan of the resource under `id`, outside any tick.
    pub fn get_resource_mut(&mut self, id: ResourceId) -> (r: Result<Option<ResMut<V>>, BorrowError>)
        ensures
            final(self).spec_world().slots() == crate::storage::slots_after_lend(
                old(self).spec_world().slots(),
                id,
            ),
            match (r, crate::storage::shared_access(old(self).spec_world().slots(), id)) {
                (Ok(Some(res)), Ok(Some(v))) => res.view_value() == v && res.spec_id() == id,
                (Ok(None), Ok(None)) => true,
                (Err(e), Err(f)) => e == f,
                _ => false,
            },
            final(self).spec_world().queue() == old(self).spec_world().queue(),
            final(self).spec_world().channels() == old(self).spec_world().channels(),
            final(self).stages_view() == old(self).stages_view(),
            final(self).window_systems() == old(self).window_systems(),
    {
        self.world.get_resource_mut(id)
    }

    /// Ends a loan taken with `get_resource_mut`.
    pub fn restore_resource(&mut self, loan: ResMut<V>)
        ensures
            final(self).spec_world().slots() == crate::storage::slots_after_restore(
                old(self).spec_world().slots(),
                loan.spec_id(),
                loan.view_value(),
            ),
            final(self).spec_world().queue() == old(self).spec_world().queue(),
            final(self).spec_world().channels() == old(self).spec_world().channels(),
            final(self).stages_view() == old(self).stages_view(),
            final(self).window_systems() == old(self).window_systems(),
    {
        self.world.restore_resource(loan);
    }

    /// Removes the resource under `id`, giving back its value when it was held.
    pub fn remove_resource(&mut self, id: ResourceId) -> (r: Option<V>)
        ensures
            final(self).spec_world().slots() == crate::storage::slots_after_remove(
                old(self).spec_world().slots(),
                id,
            ),
            r == (match crate::storage::shared_access(old(self).spec_world().slots(), id) {
                Ok(Some(v)) => Some(v),
                _ => None::<V>,
            }),
            final(self).spec_world().queue() == old(self).spec_world().queue(),
            final(self).spec_world().channels() == old(self).spec_world().channels(),
            final(self).stages_view() == old(self).stages_view(),
            final(self).window_systems() == old(self).window_systems(),
    {
        self.world.remove_resource(id)
    }
}



impl<V: Clone, C, F: SystemFn<V, C>, G> Scheduler<V, C, F, G> {
    /// Runs the systems of stage `i` in registration order; the result holds the
    /// worlds between the runs and their outcomes. The stage's systems keep their
    /// parameter lists; their bodies are as the runs left them.
    fn run_stage(&mut self, i: usize, failures: &mut Vec<SystemFailure>) -> (g: Ghost<
        (Seq<World<V, C>>, Seq<Result<(), BindError>>),
    >)
        requires
            i < old(self).stages_view().len(),
        ensures
            final(self).stages_view().len() == old(self).stages_view().len(),
            forall|k: int|
                0 <= k < old(self).stages_view().len() && k != i ==> #[trigger] final(self).stages_view()[k]
                    == old(self).stages_view()[k],
            final(self).stages_view()[i as int].0 == old(self).stages_view()[i as int].0,
            params_of(final(self).stages_view()[i as int].1) == params_of(old(self).stages_view()[i as int].1),
            final(self).window_systems() == old(self).window_systems(),
            ran_in_turn(old(self).stages_view()[i as int].1, g@.0, g@.1),
            g@.0[0] == old(self).spec_world(),
            g@.0.last() == final(self).spec_world(),
            final(failures)@ == old(failures)@ + failures_in(
                stage_plan(old(self).stages_view()[i as int].0, old(self).stages_view()[i as int].1),
                g@.1,
            ),
    {
        let ghost l = self.stages_view();
        let ghost st = self.stages@;
        let ghost sp = l[i as int].1;
        let mut stage = self.stages.remove(i);
        let order = stage.order;
        let ghost mut ws: Seq<World<V, C>> = seq![self.world];
        let ghost mut outs: Seq<Result<(), BindError>> = Seq::empty();
        proof {
            assert(stage == st[i as int]);
            assert(stage_plan(order, sp).take(0) =~= Seq::<Step<F>>::empty());
            assert(sp.take(0) =~= Seq::<FunctionSystem<F>>::empty());
        }
        let mut j: usize = 0;
        while j < stage.systems.len()
            invariant
                order == stage.order,
                order == l[i as int].0,
                sp == l[i as int].1,
                stage.systems@.len() == sp.len(),
                params_of(stage.systems@) == params_of(sp),
                forall|x: int| j <= x < sp.len() ==> #[trigger] stage.systems@[x] == sp[x],
                j <= stage.systems@.len(),
                self.stages@ == st.remove(i as int),
                self.window_systems == old(self).window_systems,
                ran_in_turn(sp.take(j as int), ws, outs),
                ws[0] == old(self).spec_world(),
                ws.last() == self.world,
                failures@ == old(failures)@ + failures_in(stage_plan(order, sp).take(j as int), outs),
            decreases stage.systems@.len() - j,
        {
            let ghost sys_before = stage.systems@;
            let mut system = stage.systems.remove(j);
            let ghost w1 = self.world;
            proof {
                assert(system == sp[j as int]);
            }
            let outcome = system.run_in(&mut self.world);
            stage.systems.insert(j, system);
            proof {
                assert(stage.systems@ =~= sys_before.update(j as int, system));
                assert(params_of(stage.systems@) =~= params_of(sp)) by {
                    assert(params_of(sys_before)[j as int] == sp[j as int].spec_params());
                }
                assert forall|x: int| j + 1 <= x < sp.len() implies #[trigger] stage.systems@[x] == sp[x] by {
                    assert(stage.systems@[x] == sys_before[x]);
                }
            }
            match outcome {
                Err(error) => failures.push(SystemFailure { stage: order, position: j, error }),
                Ok(()) => {},
            }
            proof {
                let ws2 = ws.push(self.world);
                let outs2 = outs.push(outcome);
                assert(sp.take(j as int + 1) =~= sp.take(j as int).push(sp[j as int]));
                assert forall|x: int| 0 <= x < sp.take(j as int + 1).len() implies #[trigger] system_ran(sp.take(j as int + 1)[x], ws2[x], ws2[x + 1], outs2[x]) by {
                    if x < j as int {
                        assert(system_ran(sp.take(j as int)[x], ws[x], ws[x + 1], outs[x]));
                    }
                }
                let pl = stage_plan(order, sp);
                assert(pl.take(j as int + 1).drop_last() =~= pl.take(j as int));
                assert(outs2.take(j as int) =~= outs);
                assert(pl.take(j as int + 1).last() == (order, j as nat, sp[j as int]));
                assert(failures@ =~= old(failures)@ + failures_in(pl.take(j as int + 1), outs2));
                ws = ws2;
                outs = outs2;
            }
            j = j + 1;
        }
        let ghost done = stage.systems@;
        self.stages.insert(i, stage);
        proof {
            assert(sp.take(j as int) =~= sp);
            assert(stage_plan(order, sp).take(j as int) =~= stage_plan(order, sp));
            assert(self.stages@ =~= st.update(i as int, stage));
            assert(self.stages_view() =~= l.update(i as int, (order, done)));
        }
        Ghost((ws, outs))
    }

    /// One tick: every stage but the startup stage, in ascending priority, each
    /// stage's systems in registration order, each run as `system_ran` states from
    /// the world the previous run left: bound, its body called, settled. The
    /// failures are exactly the runs whose parameters could not be bound, which
    /// were skipped. The stages keep their priorities and parameter lists.
    pub fn run(&mut self) -> (r: Vec<SystemFailure>)
        ensures
            shape(final(self).stages_view()) == shape(old(self).stages_view()),
            final(self).window_systems() == old(self).window_systems(),
            exists|ws: Seq<World<V, C>>, outs: Seq<Result<(), BindError>>|
                #[trigger] ran_in_turn(plan_systems(run_plan(old(self).stages_view())), ws, outs)
                    && ws[0] == old(self).spec_world() && ws.last() == final(self).spec_world()
                    && r@ == failures_in(run_plan(old(self).stages_view()), outs),
    {
        let ghost l = self.stages_view();
        let mut failures: Vec<SystemFailure> = Vec::new();
        let ghost mut ws: Seq<World<V, C>> = seq![self.world];
        let ghost mut outs: Seq<Result<(), BindError>> = Seq::empty();
        let mut i: usize = 0;
        proof {
            assert(l.take(0) =~= Seq::<StageView<F>>::empty());
            assert(plan_systems(run_plan(l.take(0))) =~= Seq::<FunctionSystem<F>>::empty());
        }
        while i < self.stages.len()
            invariant
                self.stages_view().len() == l.len(),
                shape(self.stages_view()) == shape(l),
                forall|k: int| i <= k < l.len() ==> #[trigger] self.stages_view()[k] == l[k],
                i <= l.len(),
                self.window_systems() == old(self).window_systems(),
                ran_in_turn(plan_systems(run_plan(l.take(i as int))), ws, outs),
                ws[0] == old(self).spec_world(),
                ws.last() == self.world,
                failures@ == failures_in(run_plan(l.take(i as int)), outs),
            decreases l.len() - i,
        {
            proof {
                lemma_run_plan_step(l, i as int);
                assert(self.stages_view()[i as int] == l[i as int]);
                assert(l[i as int].0 == self.stages@[i as int].order);
            }
            let ghost before_plan = run_plan(l.take(i as int));
            let ghost v0 = self.stages_view();
            if self.stages[i].order != STARTUP_ORDER {
                let g = self.run_stage(i, &mut failures);
                proof {
                    let sp = l[i as int].1;
                    let pl = stage_plan(l[i as int].0, sp);
                    assert(plan_systems(pl) =~= sp);
                    assert(plan_systems(before_plan + pl) =~= plan_systems(before_plan) + sp);
                    lemma_chain_concat(plan_systems(before_plan), ws, outs, sp, g@.0, g@.1);
                    lemma_failures_concat(before_plan, outs, pl, g@.1);
                    ws = ws + g@.0.drop_first();
                    outs = outs + g@.1;
                    let v1 = self.stages_view();
                    assert(shape(v1) =~= shape(v0)) by {
                        assert forall|k: int| 0 <= k < v1.len() implies #[trigger] shape(v1)[k] == shape(v0)[k] by {
                            if k != i as int {
                                assert(v1[k] == v0[k]);
                            }
                        }
                    }
                }
            } else {
                proof {
                    assert(before_plan + Seq::<Step<F>>::empty() =~= before_plan);
                }
            }
            i = i + 1;
        }
        proof {
            assert(l.take(i as int) =~= l);
            assert(ran_in_turn(plan_systems(run_plan(l)), ws, outs));
        }
        failures
    }

    /// Runs the startup stage once, its systems in registration order, each run as
    /// `system_ran` states, then drops the stage for good. Without a startup stage
    /// it runs nothing and the world stays as it is.
    pub fn startup(&mut self) -> (r: Vec<SystemFailure>)
        ensures
            old(self).wf() ==> final(self).wf(),
            final(self).stages_view() == without_startup(old(self).stages_view()),
            final(self).window_systems() == old(self).window_systems(),
            exists|ws: Seq<World<V, C>>, outs: Seq<Result<(), BindError>>|
                #[trigger] ran_in_turn(plan_systems(startup_plan(old(self).stages_view())), ws, outs)
                    && ws[0] == old(self).spec_world() && ws.last() == final(self).spec_world()
                    && r@ == failures_in(startup_plan(old(self).stages_view()), outs),
            !has_startup(old(self).stages_view()) ==> final(self).spec_world() == old(self).spec_world(),
    {
        let ghost l = self.stages_view();
        let mut failures: Vec<SystemFailure> = Vec::new();
        if self.stages.len() > 0 && self.stages[0].order == STARTUP_ORDER {
            proof {
                assert(l[0].0 == STARTUP_ORDER);
            }
            let g = self.run_stage(0, &mut failures);
            let ghost v1 = self.stages_view();
            let _ = self.stages.remove(0);
            proof {
                assert(self.stages_view() =~= v1.drop_first());
                assert(self.stages_view() =~= l.drop_first()) by {
                    assert forall|k: int| 0 <= k < self.stages_view().len() implies self.stages_view()[k] == l.drop_first()[k] by {
                        assert(v1[k + 1] == l[k + 1]);
                    }
                }
                if ascending(l) {
                    let nl = self.stages_view();
                    assert forall|a: int, b: int| 0 <= a < b < nl.len() implies #[trigger] nl[a].0 < #[trigger] nl[b].0 by {
                        assert(nl[a] == l[a + 1] && nl[b] == l[b + 1]);
                    }
                }
                assert(plan_systems(startup_plan(l)) =~= l[0].1);
                assert(failures@ =~= failures_in(startup_plan(l), g@.1));
                assert(ran_in_turn(plan_systems(startup_plan(l)), g@.0, g@.1));
            }
        } else {
            proof {
                lemma_chain_empty::<V, C, F>(self.world);
                assert(plan_systems(startup_plan(l)) =~= Seq::<FunctionSystem<F>>::empty());
                assert(ran_in_turn(plan_systems(startup_plan(l)), seq![self.world], Seq::<Result<(), BindError>>::empty()));
            }
        }
        failures
    }
}

/// Whether the window-event systems `ps`, run one after another on copies of
/// `event` with the handle `event_loop`, took the world through the states `ws`
/// with the outcomes `outs`, each run as `event_system_ran` states.
pub open spec fn events_ran_in_turn<V: Clone, C, E: Clone, L, G: WindowEventFn<V, C, E, L>>(
    ps: Seq<WindowEventSystemFunction<G>>,
    event: E,
    event_loop: L,
    ws: Seq<World<V, C>>,
    outs: Seq<Result<(), BindError>>,
) -> bool {
    &&& ws.len() == ps.len() + 1
    &&& outs.len() == ps.len()
    &&& forall|i: int| 0 <= i < ps.len() ==> #[trigger] event_step(ps, event, event_loop, ws, outs, i)
}

/// Whether run `i` of `events_ran_in_turn` is as `event_system_ran` states, on
/// some copy of `event`.
pub open spec fn event_step<V: Clone, C, E: Clone, L, G: WindowEventFn<V, C, E, L>>(
    ps: Seq<WindowEventSystemFunction<G>>,
    event: E,
    event_loop: L,
    ws: Seq<World<V, C>>,
    outs: Seq<Result<(), BindError>>,
    i: int,
) -> bool {
    exists|e: E|
        cloned(event, e) && #[trigger] event_system_ran(ps[i], e, event_loop, ws[i], ws[i + 1], outs[i])
}

impl<V: Clone, C, F, G> Scheduler<V, C, F, G> {
    /// Runs every window-event system once, in registration order, each on a copy
    /// of `event` with the same event-loop handle, each run as `event_system_ran`
    /// states from the world the previous run left. The failures are exactly the
    /// positions whose parameters could not be bound, which were skipped.
    pub fn run_events<E: Clone, L>(&mut self, event: E, event_loop: &L) -> (r: Vec<(usize, BindError)>)
        where
            G: WindowEventFn<V, C, E, L>,
        ensures
            final(self).stages_view() == old(self).stages_view(),
            final(self).window_params() == old(self).window_params(),
            exists|ws: Seq<World<V, C>>, outs: Seq<Result<(), BindError>>|
                #[trigger] events_ran_in_turn(old(self).window_systems(), event, *event_loop, ws, outs)
                    && ws[0] == old(self).spec_world() && ws.last() == final(self).spec_world()
                    && r@ == failed_positions(outs),
    {
        let ghost wp = self.window_systems();
        let mut failures: Vec<(usize, BindError)> = Vec::new();
        let ghost mut ws: Seq<World<V, C>> = seq![self.world];
        let ghost mut outs: Seq<Result<(), BindError>> = Seq::empty();
        let mut j: usize = 0;
        proof {
            assert(wp.take(0) =~= Seq::<WindowEventSystemFunction<G>>::empty());
        }
        while j < self.window_systems.len()
            invariant
                j <= self.window_systems@.len(),
                self.window_systems@.len() == wp.len(),
                event_params_of(self.window_systems@) == event_params_of(wp),
                forall|x: int| j <= x < wp.len() ==> #[trigger] self.window_systems@[x] == wp[x],
                self.stages == old(self).stages,
                events_ran_in_turn(wp.take(j as int), event, *event_loop, ws, outs),
                outs.len() == j,
                ws[0] == old(self).spec_world(),
                ws.last() == self.world,
                failures@ == failed_positions(outs),
            decreases self.window_systems@.len() - j,
        {
            let ghost sys_before = self.window_systems@;
            let mut system = self.window_systems.remove(j);
            proof {
                assert(system == wp[j as int]);
            }
            let copy = event.clone();
            let ghost ev = copy;
            let outcome = system.run_in(copy, event_loop, &mut self.world);
            self.window_systems.insert(j, system);
            proof {
                assert(self.window_systems@ =~= sys_before.update(j as int, system));
                assert(event_params_of(self.window_systems@) =~= event_params_of(wp)) by {
                    assert(event_params_of(sys_before)[j as int] == wp[j as int].spec_params());
                }
                assert forall|x: int| j + 1 <= x < wp.len() implies #[trigger] self.window_systems@[x] == wp[x] by {
                    assert(self.window_systems@[x] == sys_before[x]);
                }
            }
            match outcome {
                Err(e) => failures.push((j, e)),
                Ok(()) => {},
            }
            proof {
                let ws2 = ws.push(self.world);
                let outs2 = outs.push(outcome);
                assert(cloned(event, ev));
                assert(wp.take(j as int + 1) =~= wp.take(j as int).push(wp[j as int]));
                assert forall|x: int| 0 <= x < wp.take(j as int + 1).len() implies #[trigger] event_step(wp.take(j as int + 1), event, *event_loop, ws2, outs2, x) by {
                    if x < j as int {
                        assert(event_step(wp.take(j as int), event, *event_loop, ws, outs, x));
                        let e = choose|e: E| cloned(event, e) && #[trigger] event_system_ran(wp.take(j as int)[x], e, *event_loop, ws[x], ws[x + 1], outs[x]);
                        assert(event_system_ran(wp.take(j as int + 1)[x], e, *event_loop, ws2[x], ws2[x + 1], outs2[x]));
                    } else {
                        assert(event_system_ran(wp.take(j as int + 1)[x], ev, *event_loop, ws2[x], ws2[x + 1], outs2[x]));
                    }
                }
                assert(outs2.drop_last() =~= outs);
                assert(failures@ =~= failed_positions(outs2));
                ws = ws2;
                outs = outs2;
            }
            j = j + 1;
        }
        proof {
            assert(wp.take(j as int) =~= wp);
        }
        failures
    }
}

impl<V, C: crate::commands::CustomCommand<V>, F, G> Scheduler<V, C, F, G> {
    /// Drains the command queue and executes the commands, oldest first.
    pub fn handle_commands(&mut self)
        ensures
            final(self).stages_view() == old(self).stages_view(),
            final(self).window_systems() == old(self).window_systems(),
            drained(old(self).spec_world(), final(self).spec_world()),
    {
        self.world.handle_commands();
    }
}

} // verus!
