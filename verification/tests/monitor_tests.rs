use piano_monitor::monitor::filter_targets;
use piano_monitor::monitor::name_is_target;
use piano_monitor::monitor::DeviceRegistry;

fn name(s: &str) -> Vec<u8> {
    s.as_bytes().to_vec()
}

fn names(list: &[&str]) -> Vec<Vec<u8>> {
    list.iter().map(|s| name(s)).collect()
}

#[test]
fn the_device_class_filter_matches_usb_case_insensitively() {
    assert!(name_is_target(&name("USB Keyboard")));
    assert!(name_is_target(&name("usb midi 2")));
    assert!(name_is_target(&name("Roland UsB out")));
    assert!(!name_is_target(&name("Midi Through")));
    assert!(!name_is_target(&name("us")));
    assert!(!name_is_target(&name("")));
}

#[test]
fn filter_keeps_only_target_ports() {
    let ports = names(&["Midi Through", "USB Keyboard", "Virtual Raw", "old usb synth"]);
    let present = filter_targets(&ports);
    assert_eq!(present, names(&["USB Keyboard", "old usb synth"]));
}

#[test]
fn arrival_is_connected_by_the_next_cycle() {
    // The port appears in the scan of cycle k: the plan of that very
    // cycle asks for a connection, so a router exists by cycle k+1.
    let mut reg = DeviceRegistry::new();

    // Cycles before k: no target port, nothing planned.
    let early = names(&["Midi Through"]);
    assert!(reg.plan_arrivals(&early).is_empty());
    reg.record_connected(&Vec::new());
    let dropped = reg.retain_present(&filter_targets(&early));
    assert!(dropped.is_empty());

    // Cycle k: "USB Keyboard" appears.
    let ports = names(&["Midi Through", "USB Keyboard"]);
    let arrivals = reg.plan_arrivals(&ports);
    assert_eq!(arrivals, names(&["USB Keyboard"]));
    reg.record_connected(&arrivals);
    let dropped = reg.retain_present(&filter_targets(&ports));
    assert!(dropped.is_empty());
    assert!(reg.contains(&name("USB Keyboard")));

    // Cycle k+1: the device is present and registered; nothing to do.
    let arrivals = reg.plan_arrivals(&ports);
    assert!(arrivals.is_empty());
}

#[test]
fn departure_is_dropped_by_the_next_cycle() {
    let mut reg = DeviceRegistry::new();
    let ports = names(&["USB Keyboard", "usb pad"]);
    let arrivals = reg.plan_arrivals(&ports);
    reg.record_connected(&arrivals);
    assert!(reg.contains(&name("USB Keyboard")));
    assert!(reg.contains(&name("usb pad")));

    // Cycle m: the keyboard's port is gone from the scan.
    let ports = names(&["usb pad", "Midi Through"]);
    let arrivals = reg.plan_arrivals(&ports);
    assert!(arrivals.is_empty());
    reg.record_connected(&arrivals);
    let dropped = reg.retain_present(&filter_targets(&ports));
    assert_eq!(dropped, names(&["USB Keyboard"]));
    assert!(!reg.contains(&name("USB Keyboard")));
    assert!(reg.contains(&name("usb pad")));
}

#[test]
fn a_failed_connection_is_retried_from_scratch_next_cycle() {
    let mut reg = DeviceRegistry::new();
    let ports = names(&["USB Keyboard"]);
    let arrivals = reg.plan_arrivals(&ports);
    assert_eq!(arrivals, names(&["USB Keyboard"]));
    // The connection attempt failed: nothing is recorded.
    reg.record_connected(&Vec::new());
    let _ = reg.retain_present(&filter_targets(&ports));
    assert!(!reg.contains(&name("USB Keyboard")));
    // Next cycle plans the same arrival again.
    let again = reg.plan_arrivals(&ports);
    assert_eq!(again, names(&["USB Keyboard"]));
}

#[test]
fn duplicate_port_names_are_treated_as_one_device() {
    let mut reg = DeviceRegistry::new();
    let ports = names(&["USB Keyboard", "USB Keyboard"]);
    let arrivals = reg.plan_arrivals(&ports);
    assert_eq!(arrivals, names(&["USB Keyboard"]));
    reg.record_connected(&arrivals);
    reg.record_connected(&arrivals);
    assert_eq!(reg.names_list().len(), 1);
}
