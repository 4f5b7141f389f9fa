use app_base::app::{App, Plugin, Quit};
use app_base::commands::{Command, CustomCommand, RemoveResource, AddResource};
use app_base::scheduler::{Label, PostUpdate, PreUpdate, Scheduler, Startup, Update};
use app_base::storage::{Resource, ResourceId, Resources};
use app_base::system::{FunctionSystem, SystemFn, WindowEventFn, WindowEventSystemFunction};
use app_base::params::{Args, BindError, SystemParam};
use app_base::world::World;

#[derive(Clone, Debug, PartialEq)]
enum Val {
    Log(Vec<String>),
    Num(i64),
}

enum Cmd {
    Double(ResourceId),
}

impl CustomCommand<Val> for Cmd {
    fn execute(self, resources: &mut Resources<Val>) {
        match self {
            Cmd::Double(id) => {
                let current = match resources.get(id) {
                    Ok(Some(view)) => view.get().clone(),
                    _ => return,
                };
                if let Val::Num(n) = current {
                    resources.add(id, Val::Num(n * 2));
                }
            }
        }
    }
}

type Body = Box<dyn FnMut(&Resources<Val>, &mut Args<Val, Cmd>)>;

struct Sys(Body);

impl SystemFn<Val, Cmd> for Sys {
    fn call(&mut self, resources: &Resources<Val>, args: &mut Args<Val, Cmd>) {
        (self.0)(resources, args)
    }
}

struct OnEvent(Box<dyn FnMut(u32, &(), &mut Args<Val, Cmd>)>);

impl WindowEventFn<Val, Cmd, u32, ()> for OnEvent {
    fn call(&mut self, event: u32, event_loop: &(), _resources: &Resources<Val>, args: &mut Args<Val, Cmd>) {
        (self.0)(event, event_loop, args)
    }
}

fn log_id() -> ResourceId {
    ResourceId::named("Log")
}

fn counter_id() -> ResourceId {
    ResourceId::named("Counter")
}

fn tagger(tag: &'static str) -> FunctionSystem<Sys> {
    FunctionSystem::new(
        vec![SystemParam::ResMut(log_id())],
        Sys(Box::new(move |_r, args| {
            if let Some(Val::Log(entries)) = args.res_mut(0).cloned() {
                let mut entries = entries;
                entries.push(tag.to_string());
                args.set(0, Val::Log(entries));
            }
        })),
    )
}

fn log_of(world: &World<Val, Cmd>) -> Vec<String> {
    match world.resources().get(log_id()).unwrap().unwrap().get() {
        Val::Log(v) => v.clone(),
        _ => panic!("not a log"),
    }
}

#[test]
fn startup_runs_once_then_stages_by_priority() {
    let mut s: Scheduler<Val, Cmd, Sys, OnEvent> = Scheduler::new();
    s.add_resource(log_id(), Val::Log(vec![]));
    s.add_systems(&PostUpdate, vec![tagger("S3")]);
    s.add_systems(&Update, vec![tagger("S2")]);
    s.add_systems(&Startup, vec![tagger("S0")]);
    s.add_systems(&PreUpdate, vec![tagger("S1")]);
    assert!(s.startup().is_empty());
    assert_eq!(log_of(s.world()), vec!["S0"]);
    assert!(s.run().is_empty());
    assert_eq!(log_of(s.world()), vec!["S0", "S1", "S2", "S3"]);
    s.run();
    assert_eq!(log_of(s.world()), vec!["S0", "S1", "S2", "S3", "S1", "S2", "S3"]);
}

#[test]
fn systems_in_one_stage_run_in_registration_order() {
    let mut s: Scheduler<Val, Cmd, Sys, OnEvent> = Scheduler::new();
    s.add_resource(log_id(), Val::Log(vec![]));
    s.add_systems(&Update, vec![tagger("a"), tagger("b")]);
    s.add_systems(&Update, vec![tagger("c")]);
    s.run();
    assert_eq!(log_of(s.world()), vec!["a", "b", "c"]);
}

#[test]
fn labels_have_fixed_names_and_priorities() {
    assert_eq!((Startup.label(), Startup.order()), ("Startup", 0));
    assert_eq!((PreUpdate.label(), PreUpdate.order()), ("PreUpdate", 1));
    assert_eq!((Update.label(), Update.order()), ("Update", 2));
    assert_eq!((PostUpdate.label(), PostUpdate.order()), ("PostUpdate", 3));
}

#[test]
fn queued_insert_is_invisible_until_the_drain() {
    let mut s: Scheduler<Val, Cmd, Sys, OnEvent> = Scheduler::new();
    let seen = std::rc::Rc::new(std::cell::RefCell::new(Vec::new()));
    let writer = FunctionSystem::new(
        vec![SystemParam::Commands],
        Sys(Box::new(|_r, args| {
            args.queue(0, Command::Add(AddResource { id: counter_id(), resource: Val::Num(1) }));
        })),
    );
    let seen_in = seen.clone();
    let observer = FunctionSystem::new(
        vec![SystemParam::OptionRes(counter_id())],
        Sys(Box::new(move |r, args| {
            seen_in.borrow_mut().push(args.res(0, r).is_some());
        })),
    );
    s.add_systems(&Update, vec![writer]);
    s.add_systems(&PostUpdate, vec![observer]);
    s.run();
    assert_eq!(*seen.borrow(), vec![false]);
    assert!(s.get_resource(counter_id()).unwrap().is_none());
    s.handle_commands();
    assert_eq!(s.get_resource(counter_id()).unwrap().unwrap().get(), &Val::Num(1));
    s.run();
    assert_eq!(*seen.borrow(), vec![false, true]);
}

#[test]
fn commands_apply_in_queue_order_across_systems() {
    let mut s: Scheduler<Val, Cmd, Sys, OnEvent> = Scheduler::new();
    let first = FunctionSystem::new(
        vec![SystemParam::Commands],
        Sys(Box::new(|_r, args| {
            args.queue(0, Command::Add(AddResource { id: counter_id(), resource: Val::Num(3) }));
        })),
    );
    let second = FunctionSystem::new(
        vec![SystemParam::Commands],
        Sys(Box::new(|_r, args| {
            args.queue(0, Command::Custom(Cmd::Double(counter_id())));
            args.queue(0, Command::Add(AddResource { id: log_id(), resource: Val::Log(vec![]) }));
        })),
    );
    s.add_systems(&PreUpdate, vec![first]);
    s.add_systems(&Update, vec![second]);
    s.run();
    assert_eq!(s.world().pending_commands(), 3);
    s.handle_commands();
    assert_eq!(s.world().pending_commands(), 0);
    assert_eq!(s.get_resource(counter_id()).unwrap().unwrap().get(), &Val::Num(6));
    assert!(s.get_resource(log_id()).unwrap().is_some());
}

#[test]
fn remove_command_removes_resource() {
    let mut world: World<Val, Cmd> = World::new();
    world.add_resource(counter_id(), Val::Num(1));
    world.prepare_commands();
    let mut args = world.bind(&vec![SystemParam::Commands]).unwrap();
    assert!(args.queue(0, Command::Remove(RemoveResource::new(counter_id()))));
    world.settle(args);
    world.handle_commands();
    assert!(!world.resources().contains(counter_id()));
}

#[test]
fn shared_then_exclusive_borrow_is_a_conflict() {
    let mut world: World<Val, Cmd> = World::new();
    world.add_resource(counter_id(), Val::Num(1));
    let params = vec![SystemParam::Res(counter_id()), SystemParam::ResMut(counter_id())];
    match world.bind(&params) {
        Err(e) => assert_eq!(e, BindError::Conflict { index: 1, id: counter_id() }),
        Ok(_) => panic!("aliasing borrow was granted"),
    }
    assert!(!world.resources().is_lent(counter_id()));
}

#[test]
fn exclusive_then_shared_borrow_is_a_conflict() {
    let mut world: World<Val, Cmd> = World::new();
    world.add_resource(counter_id(), Val::Num(1));
    let params = vec![SystemParam::ResMut(counter_id()), SystemParam::OptionRes(counter_id())];
    assert_eq!(world.bind(&params).err(), Some(BindError::Conflict { index: 1, id: counter_id() }));
}

#[test]
fn copy_then_exclusive_borrow_binds() {
    let mut world: World<Val, Cmd> = World::new();
    world.add_resource(counter_id(), Val::Num(4));
    let params = vec![SystemParam::ResOwned(counter_id()), SystemParam::ResMut(counter_id())];
    let args = world.bind(&params).unwrap();
    assert_eq!(args.owned(0), Some(&Val::Num(4)));
    assert_eq!(args.res_mut(1), Some(&Val::Num(4)));
    world.settle(args);
    assert!(!world.resources().is_lent(counter_id()));
}

#[test]
fn shared_borrows_coexist() {
    let mut world: World<Val, Cmd> = World::new();
    world.add_resource(counter_id(), Val::Num(4));
    let params = vec![SystemParam::Res(counter_id()), SystemParam::Res(counter_id())];
    let args = world.bind(&params).unwrap();
    assert_eq!(args.res(1, world.resources()), Some(&Val::Num(4)));
    world.settle(args);
}

#[test]
fn missing_required_resource_fails_and_optional_is_absent() {
    let mut world: World<Val, Cmd> = World::new();
    assert_eq!(
        world.bind(&vec![SystemParam::OptionResMut(log_id()), SystemParam::Res(counter_id())]).err(),
        Some(BindError::Missing { index: 1, id: counter_id() })
    );
    let args = world.bind(&vec![SystemParam::OptionRes(log_id()), SystemParam::OptionResOwned(log_id())]).unwrap();
    assert_eq!(args.len(), 2);
    assert_eq!(args.res(0, world.resources()), None);
    assert_eq!(args.owned(1), None);
}

#[test]
fn failing_system_is_reported_and_skipped() {
    let mut s: Scheduler<Val, Cmd, Sys, OnEvent> = Scheduler::new();
    s.add_resource(log_id(), Val::Log(vec![]));
    let needs_counter = FunctionSystem::new(vec![SystemParam::ResMut(counter_id())], Sys(Box::new(|_r, _a| {})));
    s.add_systems(&Update, vec![needs_counter, tagger("after")]);
    let failures = s.run();
    assert_eq!(failures.len(), 1);
    assert_eq!(failures[0].stage, 2);
    assert_eq!(failures[0].position, 0);
    assert_eq!(failures[0].error, BindError::Missing { index: 0, id: counter_id() });
    assert_eq!(log_of(s.world()), vec!["after"]);
}

#[test]
fn preparing_many_times_makes_one_queue_and_one_channel() {
    let mut world: World<Val, Cmd> = World::new();
    let kind = ResourceId::named("Tick");
    let params = vec![
        SystemParam::Commands,
        SystemParam::EventReader(kind),
        SystemParam::EventWriter(kind),
        SystemParam::Commands,
    ];
    world.prepare(&params);
    let mut args = world.bind(&params).unwrap();
    assert!(args.queue(0, Command::Remove(RemoveResource::new(log_id()))));
    world.settle(args);
    world.prepare(&params);
    world.prepare_commands();
    world.prepare_channel(kind);
    assert!(world.has_command_queue());
    assert_eq!(world.pending_commands(), 1);
    assert_eq!(world.channel_count(), 1);
    assert!(world.channel(kind).is_some());
}

#[test]
fn events_flow_from_writer_to_reader_parameters() {
    let mut world: World<Val, Cmd> = World::new();
    let kind = ResourceId::named("Tick");
    let mut reader_args = world.bind(&vec![SystemParam::EventReader(kind)]).unwrap();
    let writer_args = world.bind(&vec![SystemParam::EventWriter(kind)]).unwrap();
    assert_eq!(writer_args.send(0, Val::Num(5)), Some(2));
    assert_eq!(reader_args.try_recv(0), Some(Ok(Val::Num(5))));
    assert_eq!(writer_args.send(1, Val::Num(5)), None);
}

#[test]
fn window_event_systems_run_in_order_with_the_event() {
    let mut s: Scheduler<Val, Cmd, Sys, OnEvent> = Scheduler::new();
    s.add_resource(log_id(), Val::Log(vec![]));
    for tag in ["w1", "w2"] {
        s.add_window_event_system(WindowEventSystemFunction::new(
            vec![SystemParam::ResMut(log_id())],
            OnEvent(Box::new(move |event, _lp, args| {
                if let Some(Val::Log(entries)) = args.res_mut(0).cloned() {
                    let mut entries = entries;
                    entries.push(format!("{tag}:{event}"));
                    args.set(0, Val::Log(entries));
                }
            })),
        ));
    }
    assert!(s.run_events(7u32, &()).is_empty());
    assert_eq!(log_of(s.world()), vec!["w1:7", "w2:7"]);
}

#[test]
fn app_ticks_until_quit_marker_appears() {
    let mut app: App<Val, Cmd, Sys, OnEvent, Seed> = App::new();
    app.add_resource(counter_id(), Val::Num(0));
    let quitter = FunctionSystem::new(
        vec![SystemParam::ResMut(counter_id()), SystemParam::Commands],
        Sys(Box::new(|_r, args| {
            if let Some(Val::Num(n)) = args.res_mut(0).cloned() {
                args.set(0, Val::Num(n + 1));
                if n + 1 == 2 {
                    args.queue(1, Command::Add(AddResource { id: Quit::id(), resource: Val::Num(0) }));
                }
            }
        })),
    );
    app.add_systems(&Update, vec![quitter]);
    app.startup();
    assert!(!app.should_close());
    let (done, failures) = app.tick();
    assert!(!done && failures.is_empty());
    let (done, _) = app.tick();
    assert!(done);
    assert!(app.should_close());
}

#[test]
fn scheduler_lends_and_restores_outside_ticks() {
    let mut s: Scheduler<Val, Cmd, Sys, OnEvent> = Scheduler::new();
    s.insert_entity((counter_id(), Val::Num(1)));
    let mut loan = s.get_resource_mut(counter_id()).unwrap().unwrap();
    assert!(s.get_resource(counter_id()).is_err());
    loan.set(Val::Num(2));
    s.restore_resource(loan);
    assert_eq!(s.get_resource(counter_id()).unwrap().unwrap().get(), &Val::Num(2));
    assert_eq!(s.remove_resource(counter_id()), Some(Val::Num(2)));
    assert!(s.get_resource(counter_id()).unwrap().is_none());
}

struct Seed(i64);

impl Plugin<Val, Cmd, Sys, OnEvent> for Seed {
    fn build(&self, app: &mut App<Val, Cmd, Sys, OnEvent, Seed>) {
        app.add_resource(counter_id(), Val::Num(self.0));
    }
}

#[test]
fn plugin_is_built_at_once_and_kept() {
    let mut app: App<Val, Cmd, Sys, OnEvent, Seed> = App::new();
    app.add_plugin(Seed(5));
    assert_eq!(app.plugins_len(), 1);
    assert_eq!(app.scheduler().get_resource(counter_id()).unwrap().unwrap().get(), &Val::Num(5));
}

#[test]
fn second_startup_runs_nothing() {
    let mut s: Scheduler<Val, Cmd, Sys, OnEvent> = Scheduler::new();
    s.add_resource(log_id(), Val::Log(vec![]));
    s.add_systems(&Startup, vec![tagger("S0")]);
    s.startup();
    s.startup();
    assert_eq!(log_of(s.world()), vec!["S0"]);
}

#[test]
fn run_before_startup_skips_startup_systems() {
    let mut s: Scheduler<Val, Cmd, Sys, OnEvent> = Scheduler::new();
    s.add_resource(log_id(), Val::Log(vec![]));
    s.add_systems(&Startup, vec![tagger("S0")]);
    s.add_systems(&Update, vec![tagger("S2")]);
    s.run();
    assert_eq!(log_of(s.world()), vec!["S2"]);
    s.startup();
    assert_eq!(log_of(s.world()), vec!["S2", "S0"]);
}

#[test]
fn bound_reader_and_writer_belong_to_their_kind() {
    let mut world: World<Val, Cmd> = World::new();
    let kind = ResourceId::named("Tick");
    let mut args = world.bind(&vec![SystemParam::EventReader(kind), SystemParam::EventWriter(kind)]).unwrap();
    assert_eq!(world.channel(kind).unwrap().kind(), kind);
    assert_eq!(world.channel(kind).unwrap().capacity(), 100);
    assert_eq!(args.send(1, Val::Num(3)), Some(2));
    assert_eq!(args.try_recv(0), Some(Ok(Val::Num(3))));
}
