use piano_monitor::boot::boot_step;
use piano_monitor::boot::BootStep;

#[test]
fn ready_as_soon_as_the_server_answers() {
    assert_eq!(boot_step(true, 0, 3000), BootStep::Ready);
    assert_eq!(boot_step(true, 9999, 3000), BootStep::Ready);
}

#[test]
fn waits_while_time_remains() {
    assert_eq!(boot_step(false, 0, 3000), BootStep::Wait);
    assert_eq!(boot_step(false, 3000, 3000), BootStep::Wait);
}

#[test]
fn gives_up_past_the_deadline() {
    assert_eq!(boot_step(false, 3001, 3000), BootStep::GiveUp);
}
