use telemetry_core::control::{
    control_action, initialize_serial_port, ControlAction, ControlGate, SessionContext,
};

#[test]
fn port_validation_rejects_unset_selections() {
    assert!(initialize_serial_port("not selected".to_string(), 115200).is_none());
    assert!(initialize_serial_port("/dev/ttyUSB0".to_string(), 0).is_none());
    let p = initialize_serial_port("/dev/ttyUSB0".to_string(), 115200).unwrap();
    assert_eq!(p.name, "/dev/ttyUSB0");
    assert_eq!(p.baud, 115200);
}

#[test]
fn port_command_is_not_reentrant() {
    let mut s = SessionContext::new();
    assert!(s.initialize_serial_port_command("/dev/ttyUSB0".to_string(), 9600));
    assert!(!s.initialize_serial_port_command("/dev/ttyUSB1".to_string(), 9600));
    assert_eq!(s.port.as_ref().unwrap().name, "/dev/ttyUSB0");
}

#[test]
fn watch_channel_is_created_once_and_starts_running() {
    let mut s = SessionContext::new();
    assert!(s.initialize_watch_channel());
    assert_eq!(s.gate, Some(ControlGate { running: true }));
    assert!(!s.initialize_watch_channel());
}

#[test]
fn data_fetch_needs_all_dependencies() {
    let mut s = SessionContext::new();
    assert!(!s.initialize_serial_data_fetch());
    assert!(s.initialize_serial_port_command("/dev/ttyUSB0".to_string(), 9600));
    assert!(!s.initialize_serial_data_fetch());
    assert!(s.initialize_broadcast_channel(16));
    assert!(!s.initialize_serial_data_fetch());
    assert!(s.initialize_watch_channel());
    assert!(s.initialize_serial_data_fetch());
    // the freshly started task sees a paused gate
    assert_eq!(s.gate, Some(ControlGate { running: false }));
    assert!(s.task_active);
}

#[test]
fn drops_are_idempotent() {
    let mut s = SessionContext::new();
    s.drop_broadcast_channel_listening();
    s.drop_broadcast_channel();
    s.drop_watch_channel();
    assert!(s.channel.is_none() && s.gate.is_none() && !s.task_active);
    assert!(s.initialize_broadcast_channel(16));
    assert!(s.initialize_watch_channel());
    assert!(s.initialize_serial_port_command("/dev/ttyUSB0".to_string(), 9600));
    assert!(s.initialize_serial_data_fetch());
    s.drop_broadcast_channel();
    assert!(s.channel.is_none());
    assert!(!s.task_active);
    s.drop_broadcast_channel();
    assert!(s.channel.is_none());
    s.drop_watch_channel();
    assert!(s.gate.is_none());
    s.drop_watch_channel();
    assert!(s.gate.is_none());
}

#[test]
fn operator_commands_map_to_actions() {
    assert_eq!(control_action("q"), ControlAction::Stop);
    assert_eq!(control_action("s"), ControlAction::Start);
    assert_eq!(control_action("p"), ControlAction::Announce);
    assert_eq!(control_action(""), ControlAction::Continue);
    assert_eq!(control_action("x"), ControlAction::Continue);
    assert_eq!(control_action("qq"), ControlAction::Continue);
}

#[test]
fn gate_levels_overwrite() {
    let mut g = ControlGate::new(true);
    g.set(false);
    assert!(!g.running);
    g.set(true);
    assert!(g.running);
}
