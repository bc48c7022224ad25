use windowing::plugin::{ExitCondition, Window, WindowPlugin};
use windowing::registry::WindowRegistry;
use windowing::runner::{create_windows, DispatchAction, LoopEvent, Runner};
use windowing::systems::{
    pu_exit_on_all_closed, pu_exit_on_primary_closed, u_close_windows, u_despawn_windows,
    u_primary_window_check, u_primary_window_recount, PrimaryWindowCount,
};

#[test]
fn registry_register_and_lookup() {
    let mut reg = WindowRegistry::<()>::new();
    assert!(reg.register(1, 100, ()));
    assert!(reg.register(2, 200, ()));
    assert_eq!(reg.lookup_by_entity(1), Some(100));
    assert_eq!(reg.lookup_by_handle(200), Some(2));
    assert_eq!(reg.lookup_by_entity(3), None);
    assert_eq!(reg.lookup_by_handle(300), None);
    assert_eq!(reg.native_window(1), Some(&()));
    assert_eq!(reg.native_window(3), None);
    assert!(reg.contains_entity(2));
    assert!(!reg.contains_entity(3));
}

#[test]
fn registry_refuses_second_window_or_shared_handle() {
    let mut reg = WindowRegistry::<()>::new();
    assert!(reg.register(1, 100, ()));
    assert!(!reg.register(1, 101, ()));
    assert!(!reg.register(2, 100, ()));
    assert_eq!(reg.lookup_by_entity(1), Some(100));
    assert_eq!(reg.lookup_by_entity(2), None);
    assert_eq!(reg.lookup_by_handle(101), None);
}

#[test]
fn registry_bijection_after_changes() {
    let mut reg = WindowRegistry::<()>::new();
    for e in 0..5u64 {
        assert!(reg.register(e, 1000 + e, ()));
    }
    reg.destroy(2);
    for e in 0..5u64 {
        match reg.lookup_by_entity(e) {
            Some(h) => assert_eq!(reg.lookup_by_handle(h), Some(e)),
            None => assert_eq!(e, 2),
        }
    }
}

#[test]
fn registry_destroy_missing_is_noop() {
    let mut reg = WindowRegistry::<()>::new();
    assert!(reg.register(1, 100, ()));
    assert_eq!(reg.destroy(7), None);
    assert_eq!(reg.destroy(1), Some(100));
    assert_eq!(reg.destroy(1), None);
    assert_eq!(reg.lookup_by_handle(100), None);
}

#[test]
fn primary_check_keeps_first() {
    let mut count = PrimaryWindowCount::default();
    let stripped = u_primary_window_check(&mut count, &vec![5, 6, 7]);
    assert_eq!(stripped, vec![6, 7]);
    assert_eq!(count.0, 1);
}

#[test]
fn primary_check_with_existing_primary() {
    let mut count = PrimaryWindowCount(1);
    let stripped = u_primary_window_check(&mut count, &vec![9]);
    assert_eq!(stripped, vec![9]);
    assert_eq!(count.0, 1);
}

#[test]
fn primary_check_empty() {
    let mut count = PrimaryWindowCount::default();
    let stripped = u_primary_window_check(&mut count, &vec![]);
    assert!(stripped.is_empty());
    assert_eq!(count.0, 0);
}

#[test]
fn duplicate_primary_scenario() {
    let titles = [(1u64, "A"), (2u64, "B")];
    let mut count = PrimaryWindowCount::default();
    let stripped = u_primary_window_check(&mut count, &vec![1, 2]);
    assert_eq!(stripped.len(), 1);
    let warned: Vec<&str> = stripped
        .iter()
        .map(|e| titles.iter().find(|t| t.0 == *e).unwrap().1)
        .collect();
    assert_eq!(warned, vec!["B"]);
    assert_eq!(count.0, 1);
}

#[test]
fn despawn_resolves_handles_and_drops_stale() {
    let mut reg = WindowRegistry::<()>::new();
    assert!(reg.register(1, 100, ()));
    assert!(reg.register(2, 200, ()));
    assert_eq!(u_despawn_windows(&reg, &vec![200, 999, 100]), vec![2, 1]);
    assert!(u_despawn_windows(&reg, &vec![]).is_empty());
}

#[test]
fn close_windows_releases_handles_once() {
    let mut reg = WindowRegistry::<()>::new();
    assert!(reg.register(1, 100, ()));
    assert!(reg.register(2, 200, ()));
    let released = u_close_windows(&mut reg, &vec![2, 3, 2]);
    assert_eq!(released, vec![200]);
    assert_eq!(reg.lookup_by_entity(2), None);
    assert_eq!(reg.lookup_by_handle(200), None);
    assert_eq!(reg.lookup_by_entity(1), Some(100));
}

#[test]
fn exit_checks() {
    assert!(pu_exit_on_all_closed(&vec![]));
    assert!(!pu_exit_on_all_closed(&vec![3]));
    assert!(pu_exit_on_primary_closed(&vec![]));
    assert!(!pu_exit_on_primary_closed(&vec![1]));
    assert!(ExitCondition::OnPrimaryClosed.exit_requested(&vec![2], &vec![]));
    assert!(!ExitCondition::OnAllClosed.exit_requested(&vec![2], &vec![]));
    assert!(ExitCondition::OnAllClosed.exit_requested(&vec![], &vec![]));
    assert!(!ExitCondition::DontExit.exit_requested(&vec![], &vec![]));
}

#[test]
fn defaults() {
    assert_eq!(ExitCondition::default(), ExitCondition::OnAllClosed);
    let w = Window::default();
    assert_eq!(w.title, "Window");
    assert_eq!((w.width, w.height), (1280, 720));
    let p = WindowPlugin::default();
    assert_eq!(p.primary_window.unwrap().title, "Window");
    assert_eq!(p.exit_condition, ExitCondition::OnAllClosed);
}

#[test]
fn create_windows_skips_registered_and_repeats() {
    let mut reg = WindowRegistry::<()>::new();
    assert!(reg.register(1, 100, ()));
    assert_eq!(create_windows(&reg, &vec![1, 2, 3, 2]), vec![2, 3]);
    assert!(create_windows(&reg, &vec![]).is_empty());
}

#[test]
fn runner_dispatch_decisions() {
    let mut r = Runner::new();
    assert_eq!(r.dispatch(LoopEvent::Init, false, false), DispatchAction::Reconcile);
    assert_eq!(r.dispatch(LoopEvent::AboutToWait, false, false), DispatchAction::Reconcile);
    assert_eq!(r.dispatch(LoopEvent::AboutToWait, false, true), DispatchAction::RunFrame);
    assert_eq!(r.dispatch(LoopEvent::CloseRequested(4), false, true), DispatchAction::ForwardClose(4));
    assert_eq!(r.dispatch(LoopEvent::Other, false, true), DispatchAction::Reconcile);
    assert_eq!(r.after_frame(false), DispatchAction::Reconcile);
    assert!(!r.has_exited());
}

#[test]
fn runner_exit_is_final() {
    let mut r = Runner::new();
    assert_eq!(r.dispatch(LoopEvent::Other, true, true), DispatchAction::Terminate);
    assert!(r.has_exited());
    assert_eq!(r.dispatch(LoopEvent::AboutToWait, false, true), DispatchAction::Terminate);
    assert_eq!(r.dispatch(LoopEvent::Init, false, true), DispatchAction::Terminate);
    let mut r2 = Runner::new();
    assert_eq!(r2.after_frame(true), DispatchAction::Terminate);
    assert_eq!(r2.dispatch(LoopEvent::AboutToWait, false, true), DispatchAction::Terminate);
}

/// One frame of the lifecycle systems over a small world of window entities:
/// (entity, title, primary).
fn run_frame(
    world: &mut Vec<(u64, &'static str, bool)>,
    reg: &mut WindowRegistry<()>,
    count: &mut PrimaryWindowCount,
    new_primaries: &Vec<u64>,
    close_requests: &Vec<u64>,
    condition: ExitCondition,
) -> (Vec<u64>, bool) {
    let stripped = u_primary_window_check(count, new_primaries);
    for e in &stripped {
        for w in world.iter_mut() {
            if w.0 == *e {
                w.2 = false;
            }
        }
    }
    let despawn = u_despawn_windows(reg, close_requests);
    world.retain(|w| !despawn.contains(&w.0));
    let released = u_close_windows(reg, &despawn);
    let windows: Vec<u64> = world.iter().map(|w| w.0).collect();
    let primaries: Vec<u64> = world.iter().filter(|w| w.2).map(|w| w.0).collect();
    (released, condition.exit_requested(&windows, &primaries))
}

#[test]
fn on_all_closed_scenario() {
    let mut world = vec![(1u64, "A", true)];
    let mut reg = WindowRegistry::<()>::new();
    let mut count = PrimaryWindowCount::default();
    let mut runner = Runner::new();

    assert_eq!(runner.dispatch(LoopEvent::Init, false, true), DispatchAction::Reconcile);
    for e in create_windows(&reg, &vec![1]) {
        assert!(reg.register(e, 100 + e, ()));
    }
    assert_eq!(reg.lookup_by_entity(1), Some(101));

    let action = runner.dispatch(LoopEvent::CloseRequested(101), false, true);
    assert_eq!(action, DispatchAction::ForwardClose(101));

    assert_eq!(runner.dispatch(LoopEvent::AboutToWait, false, true), DispatchAction::RunFrame);
    let (released, exit) = run_frame(
        &mut world,
        &mut reg,
        &mut count,
        &vec![1],
        &vec![101],
        ExitCondition::OnAllClosed,
    );
    assert!(world.is_empty());
    assert_eq!(released, vec![101]);
    assert_eq!(reg.lookup_by_entity(1), None);
    assert!(exit);
    assert_eq!(runner.after_frame(exit), DispatchAction::Terminate);
    assert_eq!(runner.dispatch(LoopEvent::AboutToWait, false, true), DispatchAction::Terminate);
}

#[test]
fn on_primary_closed_with_secondary_scenario() {
    let mut world = vec![(1u64, "A", true), (2u64, "B", false)];
    let mut reg = WindowRegistry::<()>::new();
    let mut count = PrimaryWindowCount::default();
    let mut runner = Runner::new();

    assert_eq!(runner.dispatch(LoopEvent::Init, false, true), DispatchAction::Reconcile);
    assert_eq!(create_windows(&reg, &vec![1, 2]), vec![1, 2]);
    assert!(reg.register(1, 101, ()));
    assert!(reg.register(2, 102, ()));

    assert_eq!(
        runner.dispatch(LoopEvent::CloseRequested(101), false, true),
        DispatchAction::ForwardClose(101)
    );
    assert_eq!(runner.dispatch(LoopEvent::AboutToWait, false, true), DispatchAction::RunFrame);
    let (released, exit) = run_frame(
        &mut world,
        &mut reg,
        &mut count,
        &vec![1],
        &vec![101],
        ExitCondition::OnPrimaryClosed,
    );
    assert_eq!(released, vec![101]);
    assert_eq!(world, vec![(2u64, "B", false)]);
    assert_eq!(reg.lookup_by_entity(1), None);
    assert_eq!(reg.lookup_by_entity(2), Some(102));
    assert!(exit);
    assert_eq!(runner.after_frame(exit), DispatchAction::Terminate);
    assert!(runner.has_exited());
}

#[test]
fn new_primary_after_primary_despawned_keeps_marker() {
    let mut count = PrimaryWindowCount::default();
    assert!(u_primary_window_check(&mut count, &vec![10]).is_empty());
    assert_eq!(count.0, 1);
    // Entity 10 is despawned: no earlier primary is still marked.
    u_primary_window_recount(&mut count, &vec![]);
    assert_eq!(count.0, 0);
    assert!(u_primary_window_check(&mut count, &vec![11]).is_empty());
    assert_eq!(count.0, 1);
}

#[test]
fn recount_keeps_live_primary() {
    let mut count = PrimaryWindowCount(1);
    u_primary_window_recount(&mut count, &vec![10]);
    assert_eq!(count.0, 1);
    assert_eq!(u_primary_window_check(&mut count, &vec![11]), vec![11]);
}
