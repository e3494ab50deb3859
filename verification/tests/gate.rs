use imgpuller::gate::{Admission, AdmissionGate};

#[test]
fn new_gate_holds_nothing() {
    let gate = AdmissionGate::new(3, 2);
    assert_eq!(gate.global_limit(), 3);
    assert_eq!(gate.per_key_limit(), 2);
    assert_eq!(gate.entered(), 0);
    assert_eq!(gate.at_work(), 0);
    assert_eq!(gate.pool_count(), 0);
    assert_eq!(gate.permits_in_use("docker.io"), 0);
}

#[test]
fn global_permits_are_bounded() {
    let mut gate = AdmissionGate::new(2, 5);
    assert!(gate.try_enter());
    assert!(gate.try_enter());
    assert!(!gate.try_enter());
    assert_eq!(gate.entered(), 2);
    assert!(gate.leave());
    assert_eq!(gate.entered(), 1);
    assert!(gate.try_enter());
    assert!(!gate.try_enter());
}

#[test]
fn per_key_permits_are_bounded() {
    let mut gate = AdmissionGate::new(5, 1);
    assert!(gate.try_enter());
    assert!(gate.try_enter());
    assert!(gate.try_enter());
    assert_eq!(gate.try_start("docker.io"), Admission::Granted);
    assert_eq!(gate.try_start("docker.io"), Admission::Busy);
    assert_eq!(gate.try_start("gcr.io"), Admission::Granted);
    assert_eq!(gate.permits_in_use("docker.io"), 1);
    assert_eq!(gate.permits_in_use("gcr.io"), 1);
    assert_eq!(gate.at_work(), 2);
    assert_eq!(gate.entered(), 3);
    assert!(gate.finish("docker.io"));
    assert_eq!(gate.entered(), 2);
    assert_eq!(gate.at_work(), 1);
    assert_eq!(gate.try_start("docker.io"), Admission::Granted);
    assert_eq!(gate.permits_in_use("docker.io"), 1);
}

#[test]
fn start_needs_a_global_permit() {
    let mut gate = AdmissionGate::new(2, 2);
    assert_eq!(gate.try_start("docker.io"), Admission::NotEntered);
    assert_eq!(gate.permits_in_use("docker.io"), 0);
    assert!(gate.try_enter());
    assert_eq!(gate.try_start("docker.io"), Admission::Granted);
    assert_eq!(gate.try_start("docker.io"), Admission::NotEntered);
    assert_eq!(gate.at_work(), 1);
}

#[test]
fn finish_and_leave_without_holder_change_nothing() {
    let mut gate = AdmissionGate::new(2, 2);
    assert!(!gate.finish("docker.io"));
    assert!(!gate.leave());
    assert!(gate.try_enter());
    assert!(!gate.finish("docker.io"));
    assert_eq!(gate.try_start("docker.io"), Admission::Granted);
    assert!(!gate.leave());
    assert!(!gate.finish("gcr.io"));
    assert_eq!(gate.entered(), 1);
    assert!(gate.finish("docker.io"));
    assert_eq!(gate.entered(), 0);
    assert!(!gate.finish("docker.io"));
}

#[test]
fn pools_are_created_once_and_keep_their_place() {
    let mut gate = AdmissionGate::new(4, 2);
    assert_eq!(gate.get_or_create_reg_sem("docker.io"), 0);
    assert_eq!(gate.get_or_create_reg_sem("gcr.io"), 1);
    assert_eq!(gate.get_or_create_reg_sem("docker.io"), 0);
    assert_eq!(gate.pool_count(), 2);
    assert!(gate.try_enter());
    assert_eq!(gate.try_start("quay.io"), Admission::Granted);
    assert_eq!(gate.pool_count(), 3);
    assert_eq!(gate.get_or_create_reg_sem("quay.io"), 2);
    assert_eq!(gate.permits_in_use("quay.io"), 1);
}

#[test]
fn a_busy_registry_still_gets_its_pool() {
    let mut gate = AdmissionGate::new(4, 0);
    assert!(gate.try_enter());
    assert_eq!(gate.try_start("docker.io"), Admission::Busy);
    assert_eq!(gate.pool_count(), 1);
    assert_eq!(gate.permits_in_use("docker.io"), 0);
    assert_eq!(gate.entered(), 1);
}

#[test]
fn zero_global_permits_admit_nobody() {
    let mut gate = AdmissionGate::new(0, 3);
    assert!(!gate.try_enter());
    assert_eq!(gate.try_start("docker.io"), Admission::NotEntered);
}

#[test]
fn bounds_hold_through_a_long_run() {
    let mut gate = AdmissionGate::new(3, 2);
    let keys = ["a.io", "b.io", "c.io"];
    let mut step: usize = 0;
    while step < 200 {
        let key = keys[step % 3];
        match step % 7 {
            0 | 1 | 2 => {
                gate.try_enter();
            }
            3 | 4 => {
                gate.try_start(key);
            }
            5 => {
                gate.finish(key);
            }
            _ => {
                gate.leave();
            }
        }
        assert!(gate.entered() <= 3);
        assert!(gate.at_work() <= gate.entered());
        for k in keys {
            assert!(gate.permits_in_use(k) <= 2);
        }
        step += 1;
    }
}
