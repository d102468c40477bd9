use window_relative_system::Effect;
use window_relative_system::SystemEffect;
use window_relative_system::TriggerSpec;
use window_relative_system::WindowRelativeProfileService;
use window_relative_system::WindowRelativeHost;
use window_relative_system::WindowRelativeProfile;
use window_relative_system::WindowRelativeSystem;
use window_relative_system::WindowSnapshot;

/// A host that records errors and named operations and does nothing else.
struct SystemHost {
    errors: Vec<String>,
    operations: Vec<String>,
}

impl SystemHost {
    fn new() -> SystemHost {
        SystemHost { errors: Vec::new(), operations: Vec::new() }
    }
}

impl WindowRelativeHost for SystemHost {
    fn pending_scheduler_events(&mut self, _profile_id: &str) -> Vec<String> {
        Vec::new()
    }
    fn resume_scheduler(&mut self, _profile_id: &str) {}
    fn step_scheduler(&mut self, _profile_id: &str) {}
    fn pause_scheduler(&mut self, _profile_id: &str) {}
    fn install_service(&mut self, _profile_id: &str, _service_name: &str) {}
    fn run_service(
        &mut self,
        _profile_id: &str,
        _service_name: &str,
        _window: &WindowSnapshot,
        _event_name: &str,
    ) -> Result<(), String> {
        Ok(())
    }
    fn run_handler(
        &mut self,
        _profile_id: &str,
        _handler_index: usize,
        _window: &WindowSnapshot,
        _event_name: &str,
    ) -> Result<(), String> {
        Ok(())
    }
    fn run_named_operation(&mut self, profile_id: &str, operation_name: &str) -> Result<(), String> {
        self.operations.push(format!("{} {}", profile_id, operation_name));
        Ok(())
    }
    fn check_active(
        &mut self,
        _profile_id: &str,
        _window: &WindowSnapshot,
        _process_name: &str,
        _title: &str,
    ) -> bool {
        false
    }
    fn handle_error(&mut self, profile_id: &str, event_name: &str, message: &str) {
        self.errors.push(format!("{} {} {}", profile_id, event_name, message));
    }
}

fn has_profile_with_id(system: &WindowRelativeSystem, id: &str) -> bool {
    system.profiles.iter().any(|profile| profile.id() == id)
}

#[test]
fn test_system_add_profile() {
    let mut system = WindowRelativeSystem::new();
    system.add_profile(WindowRelativeProfile::new("test_core", "", ""));
    assert!(has_profile_with_id(&system, "test_core"));
}

#[test]
fn test_system_execute_on_current_profile() {
    let mut system = WindowRelativeSystem::new();
    let mut host = SystemHost::new();
    // A fresh system's current profile is the fallback.
    assert!(system.profiles[system.active_profile_index].is_default_profile());
    system.execute_on_current_profile(&mut host, "poke").unwrap();
    assert_eq!(host.operations.len(), 1);
    assert!(host.operations[0].ends_with(" poke"));
}

#[test]
fn test_system_execute_on_profile_by_id() {
    let mut system = WindowRelativeSystem::new();
    let mut host = SystemHost::new();
    system.add_profile(WindowRelativeProfile::new("test_core", "", ""));
    let found = system.execute_on_profile_by_id(&mut host, "test_core", "poke");
    assert!(found.is_some());
    assert_eq!(host.operations, vec!["test_core poke".to_string()]);

    let missing = system.execute_on_profile_by_id(&mut host, "no_such_profile", "poke");
    assert!(missing.is_none());
    assert_eq!(host.errors.len(), 1);
    assert!(host.errors[0].contains("Could not find profile by id 'no_such_profile'."));
}

#[test]
fn test_system_execute_on_all_profiles() {
    let mut system = WindowRelativeSystem::new();
    let mut host = SystemHost::new();
    system.add_profile(WindowRelativeProfile::new("test_core", "", ""));
    system.add_profile(WindowRelativeProfile::new("test_2", "", ""));

    let results = system.execute_on_all_profiles(&mut host, "poke");
    assert_eq!(results.len(), 3);
    assert!(has_profile_with_id(&system, "test_core"));
    assert!(has_profile_with_id(&system, "test_2"));
    assert_eq!(host.operations.len(), 3);
}

#[test]
fn fallback_resolution_returns_zero_without_a_match() {
    let mut system = WindowRelativeSystem::new();
    let mut host = SystemHost::new();
    system.add_profile(WindowRelativeProfile::new("a", "Profile A", "a.exe"));
    system.add_profile(WindowRelativeProfile::new("b", "Profile B", "b.exe"));

    let window = WindowSnapshot::new("b.exe", "B");
    assert_eq!(system.resolve_active_index(&mut host, &window, "b.exe", "B"), 2);
    assert_eq!(system.resolve_active_index(&mut host, &window, "a.exe", "A"), 1);
    assert_eq!(system.resolve_active_index(&mut host, &window, "x.exe", "X"), 0);

    // The first matching profile wins, in registration order.
    system.add_profile(WindowRelativeProfile::new("a2", "Profile A again", "a.exe"));
    assert_eq!(system.resolve_active_index(&mut host, &window, "a.exe", "A"), 1);
}

#[test]
fn focus_changes_switch_profiles_in_order() {
    // The profiles of the example scenario: A and B beside the fallback.
    let mut system = WindowRelativeSystem::new();
    let mut host = SystemHost::new();
    system.add_profile(WindowRelativeProfile::new("a", "Profile A", "a.exe"));
    system.add_profile(WindowRelativeProfile::new("b", "Profile B", "b.exe"));

    // Focus moves from nothing to A: the fallback is deactivated, the index
    // moves, then A opens and activates — strictly in that order.
    let nothing = WindowSnapshot::gone();
    let window_a = WindowSnapshot::new("a.exe", "A");
    let report = system.update_profile(&mut host, &nothing, &window_a);
    assert!(report.switched);
    assert_eq!(report.old_index, 0);
    assert_eq!(report.new_index, 1);
    assert_eq!(system.active_profile_index, 1);
    assert!(system.profiles[1].is_opened && system.profiles[1].is_active);
    assert!(matches!(report.timeline[0], SystemEffect::Deactivation(Effect::Deactivated)));
    let index_change = report
        .timeline
        .iter()
        .position(|e| matches!(e, SystemEffect::ActiveIndexChanged { from: 0, to: 1 }))
        .unwrap();
    assert!(matches!(
        report.timeline[index_change + 1],
        SystemEffect::Activation(Effect::Opened)
    ));
    assert!(matches!(
        report.timeline[index_change + 2],
        SystemEffect::Activation(Effect::Activated)
    ));

    // Focus moves to B while A's window is gone: A deactivates and closes,
    // then the index moves, then B opens and activates — in that order.
    let window_b = WindowSnapshot::new("b.exe", "B");
    let a_gone = WindowSnapshot::gone();
    let report = system.update_profile(&mut host, &a_gone, &window_b);
    assert!(report.switched);
    assert_eq!(system.active_profile_index, 2);
    assert!(!system.profiles[1].is_active);
    assert!(!system.profiles[1].is_opened);
    assert!(system.profiles[2].is_opened && system.profiles[2].is_active);
    assert!(matches!(report.timeline[0], SystemEffect::Deactivation(Effect::Deactivated)));
    assert!(report.timeline.iter().any(|e| matches!(e, SystemEffect::Deactivation(Effect::Closed))));
    let index_change = report
        .timeline
        .iter()
        .position(|e| matches!(e, SystemEffect::ActiveIndexChanged { .. }))
        .unwrap();
    // Every deactivation effect precedes the index change; every activation
    // effect follows it.
    for (position, entry) in report.timeline.iter().enumerate() {
        match entry {
            SystemEffect::Deactivation(_) => assert!(position < index_change),
            SystemEffect::Activation(_) => assert!(position > index_change),
            _ => {},
        }
    }

    // Focus moves to an unrecognized process: the fallback takes over.
    let window_x = WindowSnapshot::new("x.exe", "X");
    let b_gone = WindowSnapshot::gone();
    let report = system.update_profile(&mut host, &b_gone, &window_x);
    assert!(report.switched);
    assert_eq!(system.active_profile_index, 0);
    assert!(!system.profiles[2].is_active && !system.profiles[2].is_opened);

    // Focus staying within the same profile's process changes nothing.
    let report = system.update_profile(&mut host, &window_x, &window_x);
    assert!(!report.switched);
    assert_eq!(system.active_profile_index, 0);
}

#[test]
fn update_interval_sleep_compensates_for_drift() {
    assert_eq!(WindowRelativeSystem::sleep_duration_ms(100, 16, 104), 12);
    assert_eq!(WindowRelativeSystem::sleep_duration_ms(100, 16, 116), 0);
    assert_eq!(WindowRelativeSystem::sleep_duration_ms(100, 16, 200), 0);
    assert_eq!(WindowRelativeSystem::sleep_duration_ms(100, 16, 100), 16);
}

#[test]
fn tick_dispatches_update_to_the_active_profile() {
    let mut system = WindowRelativeSystem::new();
    let mut host = SystemHost::new();
    system.add_profile(WindowRelativeProfile::new("a", "Profile A", "a.exe"));
    let window_a = WindowSnapshot::new("a.exe", "A");
    system.update_profile(&mut host, &WindowSnapshot::gone(), &window_a);
    assert_eq!(system.active_profile_index, 1);
    let (trace, outcome) = system.tick(&mut host, &window_a);
    outcome.unwrap();
    // An update steps the scheduler and changes no lifecycle flags.
    assert!(matches!(trace[0], Effect::SchedulerStepped));
    assert!(system.profiles[1].is_opened && system.profiles[1].is_active);
    assert!(host.errors.is_empty());
}

/// A host that fails every service body and records scheduler operations.
struct FailingHost {
    errors: Vec<String>,
    scheduler_ops: Vec<String>,
}

impl WindowRelativeHost for FailingHost {
    fn pending_scheduler_events(&mut self, _profile_id: &str) -> Vec<String> {
        Vec::new()
    }
    fn resume_scheduler(&mut self, profile_id: &str) {
        self.scheduler_ops.push(format!("resume {}", profile_id));
    }
    fn step_scheduler(&mut self, profile_id: &str) {
        self.scheduler_ops.push(format!("step {}", profile_id));
    }
    fn pause_scheduler(&mut self, profile_id: &str) {
        self.scheduler_ops.push(format!("pause {}", profile_id));
    }
    fn install_service(&mut self, _profile_id: &str, _service_name: &str) {}
    fn run_service(
        &mut self,
        _profile_id: &str,
        service_name: &str,
        _window: &WindowSnapshot,
        _event_name: &str,
    ) -> Result<(), String> {
        Err(format!("{} failed", service_name))
    }
    fn run_handler(
        &mut self,
        _profile_id: &str,
        _handler_index: usize,
        _window: &WindowSnapshot,
        _event_name: &str,
    ) -> Result<(), String> {
        Ok(())
    }
    fn run_named_operation(&mut self, _profile_id: &str, _operation_name: &str) -> Result<(), String> {
        Ok(())
    }
    fn check_active(
        &mut self,
        _profile_id: &str,
        _window: &WindowSnapshot,
        _process_name: &str,
        _title: &str,
    ) -> bool {
        false
    }
    fn handle_error(&mut self, profile_id: &str, event_name: &str, message: &str) {
        self.errors.push(format!("{} {} {}", profile_id, event_name, message));
    }
}

#[test]
fn failed_activation_is_recovered_with_a_forced_resume() {
    let mut system = WindowRelativeSystem::new();
    let mut host = FailingHost { errors: Vec::new(), scheduler_ops: Vec::new() };
    let mut profile = WindowRelativeProfile::new("a", "Profile A", "a.exe");
    profile.add_service(
        &mut host,
        WindowRelativeProfileService::new("boom", TriggerSpec::Activate),
    );
    system.add_profile(profile);

    let window_a = WindowSnapshot::new("a.exe", "A");
    let report = system.update_profile(&mut host, &WindowSnapshot::gone(), &window_a);
    assert!(report.switched);
    assert_eq!(report.activate_error, Some("boom failed".to_string()));
    assert_eq!(host.errors, vec!["a activate boom failed".to_string()]);
    // The recovery: the new profile's scheduler is force-resumed and stepped
    // once, after the fallback's deactivation and the ordinary resume that the
    // activation itself performed.
    assert_eq!(
        host.scheduler_ops,
        vec![
            "step DEFAULT_PROFILE_ID".to_string(),
            "pause DEFAULT_PROFILE_ID".to_string(),
            "resume a".to_string(),
            "resume a".to_string(),
            "step a".to_string(),
        ]
    );
    // The timeline records the recovery after the aborted activation.
    let n = report.timeline.len();
    assert!(matches!(
        report.timeline[n - 2],
        SystemEffect::ActivationRecovery(Effect::SchedulerResumed)
    ));
    assert!(matches!(
        report.timeline[n - 1],
        SystemEffect::ActivationRecovery(Effect::SchedulerStepped)
    ));
    // The activation trace stops at the abort: activate was marked and the
    // scheduler resumed, but nothing after the failing service ran.
    assert!(report.timeline.contains(&SystemEffect::Activation(Effect::Activated)));
    assert!(!report.timeline.contains(&SystemEffect::Activation(Effect::SchedulerStepped)));
    // The system stays usable: the index moved despite the error.
    assert_eq!(system.active_profile_index, 1);
}

#[test]
fn named_operations_route_through_registration() {
    let mut system = WindowRelativeSystem::new();
    let mut host = SystemHost::new();
    let mut profile = WindowRelativeProfile::new("a", "Profile A", "a.exe");
    profile.register_named_operation("greet");
    assert!(profile.has_named_operation("greet"));
    assert!(!profile.has_named_operation("other"));
    system.add_profile(profile);

    system.execute_named_operation(&mut host, "greet");
    assert_eq!(host.operations, vec!["a greet".to_string()]);
    assert!(host.errors.is_empty());

    system.execute_named_operation(&mut host, "missing");
    assert_eq!(host.errors.len(), 1);
    assert!(host.errors[0].contains("Could not find named operation 'missing'."));
}
