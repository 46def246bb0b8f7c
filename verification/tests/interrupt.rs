use flacser::interrupt::InterruptFlag;

#[test]
fn new_flag_starts_uninterrupted() {
    let flag = InterruptFlag::new();

    assert!(!flag.is_interrupted());
}

#[test]
fn interrupt_marks_flag_interrupted() {
    let flag = InterruptFlag::new();

    flag.interrupt();

    assert!(flag.is_interrupted());
}

#[test]
fn shared_flags_share_state() {
    let flag = InterruptFlag::new();
    let shared = flag.shared();

    shared.interrupt();

    assert!(flag.is_interrupted());
}

#[test]
fn separate_flags_do_not_share_state() {
    let first = InterruptFlag::new();
    let second = InterruptFlag::new();

    first.interrupt();

    assert!(!second.is_interrupted());
}
