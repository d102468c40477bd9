use window_relative_system::Effect;
use window_relative_system::TriggerOverride;
use window_relative_system::TriggerSpec;
use window_relative_system::WindowRelativeHost;
use window_relative_system::WindowRelativeProfile;
use window_relative_system::WindowRelativeProfileService;
use window_relative_system::WindowSnapshot;

/// A host that records which services and handlers ran, in order, and can be
/// told to fail chosen services and to queue scheduler events.
struct RecorderHost {
    history: Vec<String>,
    pending: Vec<String>,
    failing_service: Option<String>,
    errors: Vec<String>,
}

impl RecorderHost {
    fn new() -> RecorderHost {
        RecorderHost { history: Vec::new(), pending: Vec::new(), failing_service: None, errors: Vec::new() }
    }
    fn drain(&mut self) -> Vec<String> {
        self.history.drain(..).collect()
    }
}

impl WindowRelativeHost for RecorderHost {
    fn pending_scheduler_events(&mut self, _profile_id: &str) -> Vec<String> {
        std::mem::take(&mut self.pending)
    }
    fn resume_scheduler(&mut self, _profile_id: &str) {}
    fn step_scheduler(&mut self, _profile_id: &str) {}
    fn pause_scheduler(&mut self, _profile_id: &str) {}
    fn install_service(&mut self, _profile_id: &str, _service_name: &str) {}
    fn run_service(
        &mut self,
        _profile_id: &str,
        service_name: &str,
        _window: &WindowSnapshot,
        event_name: &str,
    ) -> Result<(), String> {
        if self.failing_service.as_deref() == Some(service_name) {
            return Err(format!("{} failed", service_name));
        }
        self.history.push(format!("service {}", event_name));
        Ok(())
    }
    fn run_handler(
        &mut self,
        _profile_id: &str,
        _handler_index: usize,
        _window: &WindowSnapshot,
        event_name: &str,
    ) -> Result<(), String> {
        self.history.push(format!("handler {}", event_name));
        Ok(())
    }
    fn run_named_operation(&mut self, _profile_id: &str, _operation_name: &str) -> Result<(), String> {
        Ok(())
    }
    fn check_active(
        &mut self,
        _profile_id: &str,
        _window: &WindowSnapshot,
        _process_name: &str,
        _title: &str,
    ) -> bool {
        false
    }
    fn handle_error(&mut self, profile_id: &str, event_name: &str, message: &str) {
        self.errors.push(format!("{} {} {}", profile_id, event_name, message));
    }
}

/// A trigger that matches the four built-in phases and the update event.
fn all_lifecycle_events() -> TriggerSpec {
    TriggerSpec::All.or(TriggerSpec::NamedEvent("update".to_string()))
}

fn strings(items: &[&str]) -> Vec<String> {
    items.iter().map(|s| s.to_string()).collect()
}

#[test]
fn test_profile_event_triggers() {
    let mut host = RecorderHost::new();
    let mut profile: WindowRelativeProfile =
        WindowRelativeProfile::new("test_id", "test_title", "test_process")
            .with_service(
                &mut host,
                WindowRelativeProfileService::new("recorder", all_lifecycle_events()),
            )
            .with_handler();
    let fake_window: WindowSnapshot = WindowSnapshot::gone();
    let live_window: WindowSnapshot = WindowSnapshot::new("test_process", "some title");

    profile.trigger_event(&mut host, &fake_window, "activate").1.unwrap();
    assert_eq!(
        host.drain(),
        strings(&["service open", "handler open", "service activate", "handler activate"])
    );
    profile.trigger_event(&mut host, &fake_window, "update").1.unwrap();
    assert_eq!(host.drain(), strings(&["service update", "handler update"]));
    profile.trigger_event(&mut host, &live_window, "deactivate").1.unwrap();
    assert_eq!(host.drain(), strings(&["service deactivate", "handler deactivate"]));
    profile.trigger_event(&mut host, &fake_window, "activate").1.unwrap();
    assert_eq!(host.drain(), strings(&["service activate", "handler activate"]));
    profile.trigger_event(&mut host, &fake_window, "deactivate").1.unwrap();
    assert_eq!(
        host.drain(),
        strings(&["service deactivate", "handler deactivate", "service close", "handler close"])
    );
}

/// A host that records the bare event names that services ran for.
struct EventNameHost {
    history: Vec<String>,
}

impl WindowRelativeHost for EventNameHost {
    fn pending_scheduler_events(&mut self, _profile_id: &str) -> Vec<String> {
        Vec::new()
    }
    fn resume_scheduler(&mut self, _profile_id: &str) {}
    fn step_scheduler(&mut self, _profile_id: &str) {}
    fn pause_scheduler(&mut self, _profile_id: &str) {}
    fn install_service(&mut self, _profile_id: &str, _service_name: &str) {}
    fn run_service(
        &mut self,
        _profile_id: &str,
        _service_name: &str,
        _window: &WindowSnapshot,
        event_name: &str,
    ) -> Result<(), String> {
        self.history.push(event_name.to_string());
        Ok(())
    }
    fn run_handler(
        &mut self,
        _profile_id: &str,
        _handler_index: usize,
        _window: &WindowSnapshot,
        _event_name: &str,
    ) -> Result<(), String> {
        Ok(())
    }
    fn run_named_operation(&mut self, _profile_id: &str, _operation_name: &str) -> Result<(), String> {
        Ok(())
    }
    fn check_active(
        &mut self,
        _profile_id: &str,
        _window: &WindowSnapshot,
        _process_name: &str,
        _title: &str,
    ) -> bool {
        false
    }
    fn handle_error(&mut self, _profile_id: &str, _event_name: &str, _message: &str) {}
}

#[test]
fn test_profile_service_triggers() {
    // Create test service: it triggers on the built-in phases, on update, and
    // on the custom event name below.
    let trigger = TriggerSpec::All
        .or(TriggerSpec::NamedEvent("update".to_string()))
        .or(TriggerSpec::NamedEvent("test_event".to_string()));

    // Create profile and get fake window.
    let mut host = EventNameHost { history: Vec::new() };
    let mut profile: WindowRelativeProfile =
        WindowRelativeProfile::new("test_id", "test_title", "test_process_name");
    profile.add_service(&mut host, WindowRelativeProfileService::new("test_service", trigger));
    let fake_window: WindowSnapshot = WindowSnapshot::gone();

    // Run services and test results.
    let expected_on_event: &[(&str, &[&str])] = &[
        ("activate", &["open", "activate"]),
        ("activate", &["activate"]),
        ("update", &["update"]),
        ("deactivate", &["deactivate", "close"]),
    ];
    for (event_name, expected_history) in expected_on_event {
        host.history = Vec::new();
        profile.trigger_event(&mut host, &fake_window, event_name).1.unwrap();
        assert_eq!(&host.history, expected_history);
    }
}

#[test]
fn test_profile_service_trigger_once() {
    // Create test service: it triggers once, on the custom empty event name.
    let service = WindowRelativeProfileService::new(
        "one_shot",
        TriggerSpec::NamedEvent("".to_string()),
    )
    .with_trigger_once();

    // Create profile and get fake window.
    let mut host = EventNameHost { history: Vec::new() };
    let mut profile: WindowRelativeProfile =
        WindowRelativeProfile::new("test_id", "test_title", "test_process_name");
    profile.add_service(&mut host, service);
    let fake_window: WindowSnapshot = WindowSnapshot::gone();

    // Run services and test results.
    assert_eq!(profile.services.len(), 1);
    profile.trigger_event(&mut host, &fake_window, "").1.unwrap();
    assert_eq!(profile.services.len(), 0);
    assert!(!host.history.is_empty());
    // A second identical event does not run the expired service again.
    profile.trigger_event(&mut host, &fake_window, "").1.unwrap();
    assert_eq!(host.history.len(), 1);
}

#[test]
fn test_profile_service_from_fn() {
    // Create profile and get fake window; the host's run_service is the
    // service body.
    let mut host = EventNameHost { history: Vec::new() };
    let mut profile: WindowRelativeProfile =
        WindowRelativeProfile::new("test_id", "test_title", "test_process_name");
    profile.add_service(
        &mut host,
        WindowRelativeProfileService::new("fn_service", TriggerSpec::NamedEvent("".to_string())),
    );
    let fake_window: WindowSnapshot = WindowSnapshot::gone();

    // Run services and test results.
    profile.trigger_event(&mut host, &fake_window, "").1.unwrap();
    assert!(!host.history.is_empty());
}

/// A host that records the names of the services that ran.
struct ServiceNameHost {
    history: Vec<String>,
}

impl WindowRelativeHost for ServiceNameHost {
    fn pending_scheduler_events(&mut self, _profile_id: &str) -> Vec<String> {
        Vec::new()
    }
    fn resume_scheduler(&mut self, _profile_id: &str) {}
    fn step_scheduler(&mut self, _profile_id: &str) {}
    fn pause_scheduler(&mut self, _profile_id: &str) {}
    fn install_service(&mut self, _profile_id: &str, _service_name: &str) {}
    fn run_service(
        &mut self,
        _profile_id: &str,
        service_name: &str,
        _window: &WindowSnapshot,
        _event_name: &str,
    ) -> Result<(), String> {
        self.history.push(service_name.to_string());
        Ok(())
    }
    fn run_handler(
        &mut self,
        _profile_id: &str,
        _handler_index: usize,
        _window: &WindowSnapshot,
        _event_name: &str,
    ) -> Result<(), String> {
        Ok(())
    }
    fn run_named_operation(&mut self, _profile_id: &str, _operation_name: &str) -> Result<(), String> {
        Ok(())
    }
    fn check_active(
        &mut self,
        _profile_id: &str,
        _window: &WindowSnapshot,
        _process_name: &str,
        _title: &str,
    ) -> bool {
        false
    }
    fn handle_error(&mut self, _profile_id: &str, _event_name: &str, _message: &str) {}
}

#[test]
fn open_services_run_before_activate_services_on_first_activation() {
    let mut host = ServiceNameHost { history: Vec::new() };
    let mut profile = WindowRelativeProfile::new("p", "t", "proc");
    profile.add_service(&mut host, WindowRelativeProfileService::new("at_activate", TriggerSpec::Activate));
    profile.add_service(&mut host, WindowRelativeProfileService::new("at_open", TriggerSpec::Open));
    let window = WindowSnapshot::new("proc", "t");

    // The first activation synthesizes the whole open phase first.
    profile.trigger_event(&mut host, &window, "activate").1.unwrap();
    assert_eq!(host.history, strings(&["at_open", "at_activate"]));

    // A second activation without a deactivate runs no open service again,
    // but the activate service once more.
    profile.trigger_event(&mut host, &window, "activate").1.unwrap();
    assert_eq!(host.history, strings(&["at_open", "at_activate", "at_activate"]));
}

#[test]
fn builder_modification_applies() {
    let profile = WindowRelativeProfile::new("p", "t", "proc")
        .with_modification(|p: WindowRelativeProfile| p.with_handler());
    assert_eq!(profile.event_handler_count, 1);

    let modifications: Vec<fn(WindowRelativeProfile) -> WindowRelativeProfile> = vec![
        |p: WindowRelativeProfile| p.with_handler(),
        |p: WindowRelativeProfile| p.with_handler(),
    ];
    let profile = WindowRelativeProfile::new("p", "t", "proc").with_modifications(modifications);
    assert_eq!(profile.event_handler_count, 2);
}

#[test]
fn trigger_override_renames_its_alias_sources() {
    let aliases = vec![
        ("activate".to_string(), "start".to_string()),
        ("deactivate".to_string(), "stop".to_string()),
        ("activate".to_string(), "ignored".to_string()),
    ];
    let gate = TriggerOverride::new(aliases);
    assert!(gate.trigger_on_event("activate"));
    assert!(gate.trigger_on_event("deactivate"));
    assert!(!gate.trigger_on_event("update"));
    // The first alias with the source wins.
    assert_eq!(gate.run_event("activate"), Some("start".to_string()));
    assert_eq!(gate.run_event("deactivate"), Some("stop".to_string()));
    assert_eq!(gate.run_event("open"), None);
}

#[test]
fn active_implies_opened_after_every_transition() {
    let mut host = RecorderHost::new();
    let mut profile = WindowRelativeProfile::new("p", "t", "proc")
        .with_service(&mut host, WindowRelativeProfileService::new("svc", all_lifecycle_events()));
    let fake = WindowSnapshot::gone();
    let live = WindowSnapshot::new("proc", "t");
    for event in ["activate", "update", "deactivate", "activate", "close", "open", "custom"] {
        let window = if event == "deactivate" { &live } else { &fake };
        profile.trigger_event(&mut host, window, event).1.unwrap();
        assert!(!profile.is_active || profile.is_opened);
    }
}

#[test]
fn hidden_window_closes_on_deactivate_but_visible_does_not() {
    let mut host = EventNameHost { history: Vec::new() };
    let mut profile = WindowRelativeProfile::new("p", "t", "proc");
    profile.add_service(&mut host, WindowRelativeProfileService::new("svc", TriggerSpec::Close));
    let hidden = WindowSnapshot { process_name: Some("proc".to_string()), title: "t".to_string(), exists: true, is_visible: false };
    let visible = WindowSnapshot::new("proc", "t");

    profile.trigger_event(&mut host, &visible, "activate").1.unwrap();
    profile.trigger_event(&mut host, &visible, "deactivate").1.unwrap();
    assert!(host.history.is_empty());
    assert!(profile.is_opened);

    profile.trigger_event(&mut host, &visible, "activate").1.unwrap();
    profile.trigger_event(&mut host, &hidden, "deactivate").1.unwrap();
    assert_eq!(host.history, vec!["close".to_string()]);
    assert!(!profile.is_opened);
}

#[test]
fn failing_service_aborts_the_rest_of_the_dispatch() {
    let mut host = RecorderHost::new();
    host.failing_service = Some("boom".to_string());
    let mut profile = WindowRelativeProfile::new("p", "t", "proc")
        .with_service(&mut host, WindowRelativeProfileService::new("first", all_lifecycle_events()))
        .with_service(&mut host, WindowRelativeProfileService::new("boom", all_lifecycle_events()))
        .with_service(&mut host, WindowRelativeProfileService::new("last", all_lifecycle_events()))
        .with_handler();
    let fake = WindowSnapshot::gone();
    let (trace, result) = profile.trigger_event(&mut host, &fake, "open");
    assert_eq!(result, Err("boom failed".to_string()));
    // The first service ran; the failing one aborted the rest, so neither the
    // third service nor the handler was reached.
    assert_eq!(host.drain(), strings(&["service open"]));
    // The returned trace is exactly what ran before the abort.
    assert_eq!(trace.len(), 2);
    assert!(matches!(trace[0], Effect::Opened));
    assert!(matches!(&trace[1], Effect::ServiceRan { service_name, .. } if service_name == "first"));
}

#[test]
fn scheduler_queued_events_dispatch_before_the_event() {
    let mut host = RecorderHost::new();
    host.pending = strings(&["warm_up"]);
    let mut profile = WindowRelativeProfile::new("p", "t", "proc").with_service(
        &mut host,
        WindowRelativeProfileService::new(
            "svc",
            TriggerSpec::NamedEvent("warm_up".to_string()).or(TriggerSpec::All),
        ),
    );
    let fake = WindowSnapshot::gone();
    let (trace, outcome) = profile.trigger_event(&mut host, &fake, "open");
    outcome.unwrap();
    assert_eq!(host.drain(), strings(&["service warm_up", "service open"]));
    assert!(matches!(trace[0], Effect::ServiceRan { .. }));
    assert!(matches!(trace[1], Effect::Opened));
}

#[test]
fn profile_data_accessors_store_and_read() {
    let mut profile = WindowRelativeProfile::new("p", "t", "proc");
    profile.set_data("count", 7u32);
    assert_eq!(profile.get_data::<u32>("count"), Some(7u32));
    assert_eq!(profile.get_data::<u32>("other"), None);
    profile.set_data("count", 8u32);
    assert_eq!(profile.get_data::<u32>("count"), Some(8u32));
}

#[test]
fn trigger_spec_matching_is_structural() {
    let open = TriggerSpec::Open;
    let named = TriggerSpec::NamedEvent("ping".to_string());
    let combined = TriggerSpec::Open.or(TriggerSpec::NamedEvent("ping".to_string()));
    assert!(open.matches(&TriggerSpec::Open));
    assert!(!open.matches(&TriggerSpec::Activate));
    assert!(TriggerSpec::All.matches(&TriggerSpec::Close));
    assert!(!TriggerSpec::All.matches(&TriggerSpec::NamedEvent("ping".to_string())));
    assert!(named.matches(&TriggerSpec::NamedEvent("ping".to_string())));
    assert!(!named.matches(&TriggerSpec::NamedEvent("pong".to_string())));
    assert!(combined.matches(&TriggerSpec::Open));
    assert!(combined.matches(&TriggerSpec::NamedEvent("ping".to_string())));
    assert!(!combined.matches(&TriggerSpec::Deactivate));
    assert!(!TriggerSpec::Never.matches(&TriggerSpec::Open));
}
