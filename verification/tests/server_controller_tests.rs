use window_relative_system::CommandReference;
use window_relative_system::ProfileProperties;
use window_relative_system::ServerController;
use window_relative_system::ServerHost;

/// A host whose server work writes a number into a cell: starting writes 1, an
/// instance exists once the cell is positive, and executing a command parses
/// it as the number to write.
struct NumberHost {
    value: u8,
}

impl ServerHost for NumberHost {
    fn start_server(&mut self) -> Result<(), String> {
        self.value = 1;
        Ok(())
    }
    fn modify_settings(&mut self) -> Result<(), String> {
        Ok(())
    }
    fn instance_exists(&self) -> bool {
        self.value > 0
    }
    fn execute(&mut self, command: String) -> Result<(), String> {
        self.value = command.parse().unwrap();
        Ok(())
    }
}

fn commands(list: &[(&str, &str)]) -> Vec<(String, String)> {
    list.iter().map(|(name, command)| (name.to_string(), command.to_string())).collect()
}

#[test]
fn test_server_controller_full_test() {
    let mut host = NumberHost { value: 0 };

    // Create controller.
    let server_controller: ServerController = ServerController::new()
        .with_instance_existance_checker()
        .with_command_executor()
        .with_commands(&commands(&[("set_num_255", "255")]));

    // Validate actions handled properly.
    assert_eq!(host.value, 0);
    server_controller.start(&mut host).unwrap();
    assert!(server_controller.instance_exists(&host));
    assert_eq!(host.value, 1);
    assert!(
        server_controller.start(&mut host).is_err(),
        "Second start was successful. Second start should fail due to the first instance existing."
    );
    assert_eq!(host.value, 1);
    server_controller.execute_command(&mut host, "12").unwrap();
    assert_eq!(host.value, 12);
    server_controller.execute_command(&mut host, "set_num_255").unwrap();
    assert_eq!(host.value, 255);
}

#[test]
fn test_server_controller_accesible_in_proifile_properties() {
    let mut host = NumberHost { value: 0 };

    let profile_properties: ProfileProperties =
        ProfileProperties::new("", "", "", "").with_server_controller(ServerController::new());
    assert!(profile_properties.server_controller().is_some());
    profile_properties.server_controller.unwrap().start(&mut host).unwrap();
    assert_eq!(host.value, 1);
}

#[test]
fn start_refused_while_instance_running() {
    let mut host = NumberHost { value: 5 };
    let controller = ServerController::new().with_instance_existance_checker();
    let result = controller.start(&mut host);
    assert_eq!(
        result,
        Err("Could not start server, server already running.".to_string())
    );
    // Without a checker wired in, nothing reports a running instance.
    let unchecked = ServerController::new();
    assert!(!unchecked.instance_exists(&host));
    assert!(unchecked.start(&mut host).is_ok());
}

#[test]
fn execute_command_without_executor_is_refused() {
    let mut host = NumberHost { value: 0 };
    let controller = ServerController::new();
    assert_eq!(
        controller.execute_command(&mut host, "anything"),
        Err("Could not execute command, command executor does not exist.".to_string())
    );
}

#[test]
fn command_arguments_substitute_by_index() {
    let list = commands(&[("greet", "say $0 to $1")]);
    let reference = ("greet", ["hello", "world"].as_slice());
    assert_eq!(reference.get_command(&list), "say hello to world".to_string());

    // An unlisted reference is its own command text.
    let raw = ("echo $0", ["ping"].as_slice());
    assert_eq!(raw.get_command(&commands(&[])), "echo ping".to_string());

    // A two-digit placeholder is not clipped by its one-digit prefix.
    let args = ["a0", "a1", "a2", "a3", "a4", "a5", "a6", "a7", "a8", "a9", "a10"];
    let wide = ("$10 then $1", args.as_slice());
    assert_eq!(wide.get_command(&commands(&[])), "a10 then a1".to_string());
}

#[test]
fn command_lookup_falls_back_to_the_reference() {
    let mut host = NumberHost { value: 0 };
    let controller = ServerController::new()
        .with_command_executor()
        .with_commands(&commands(&[("alias", "77"), ("alias", "88")]));
    // The first entry with the name wins; an unlisted reference is the command.
    controller.execute_command(&mut host, "alias").unwrap();
    assert_eq!(host.value, 77);
    controller.execute_command(&mut host, String::from("99")).unwrap();
    assert_eq!(host.value, 99);
}
