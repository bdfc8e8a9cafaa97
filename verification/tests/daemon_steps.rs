use jitterentropy_rustrngd::caps::{capability_request, CapData, CapHeader};
use jitterentropy_rustrngd::daemon::{next_step, Decision, LogLevel, Stage};
use jitterentropy_rustrngd::entropy::{
    entropy_submission, ENTROPY_BYTES, RESEED_INTERVAL_SECS, RNDADDENTROPY,
};

#[test]
fn ioctl_number_is_as_derived() {
    assert_eq!(RNDADDENTROPY, 0x40085203);
    assert!(RNDADDENTROPY > 0);
}

#[test]
fn reseed_interval_is_two_to_the_seventeen_over_256() {
    assert_eq!(RESEED_INTERVAL_SECS, (1u64 << 17) / 256);
    assert_eq!(ENTROPY_BYTES * 8, 384);
}

#[test]
fn full_read_credits_384_bits() {
    let buf = [9u8; 48];
    let info = entropy_submission(48, buf).ok().unwrap();
    assert_eq!((info.entropy_count, info.buf_size), (384, 48));
    assert_eq!(info.buf, buf);
}

#[test]
fn short_read_credits_only_what_was_written() {
    let info = entropy_submission(20, [0u8; 48]).ok().unwrap();
    assert_eq!((info.entropy_count, info.buf_size), (160, 20));
    let info = entropy_submission(0, [0u8; 48]).ok().unwrap();
    assert_eq!((info.entropy_count, info.buf_size), (0, 0));
}

#[test]
fn failed_read_is_reported() {
    assert_eq!(
        entropy_submission(-3, [0u8; 48]).err(),
        Some("jent_read_entropy returned -3".to_string())
    );
    assert_eq!(
        entropy_submission(isize::MIN, [0u8; 48]).err(),
        Some(format!("jent_read_entropy returned {}", isize::MIN))
    );
}

#[test]
fn capabilities_keep_sys_admin_only() {
    let (header, data) = capability_request();
    assert_eq!(header, CapHeader { version: 0x20080522, pid: 0 });
    assert_eq!(data[0], CapData { effective: 1 << 21, permitted: 1 << 21, inheritable: 0 });
    assert_eq!(data[1], CapData { effective: 0, permitted: 0, inheritable: 0 });
}

#[test]
fn start_up_runs_in_order() {
    let mut stage = Stage::SelfTest;
    let order = [Stage::Allocate, Stage::OpenRandom, Stage::DropCaps, Stage::InitialSeed, Stage::Reseed];
    for expected in order {
        let d = next_step(stage, true);
        assert_eq!(d.next, Some(expected));
        assert!(!d.close_random && !d.free_collector);
        stage = expected;
    }
    assert_eq!(next_step(Stage::InitialSeed, true).pause_secs, 512);
    assert_eq!(next_step(Stage::DropCaps, true).log, Some(LogLevel::Info));
    assert_eq!(next_step(Stage::SelfTest, true).log, None);
}

#[test]
fn failures_before_the_loop_abort_and_release_what_is_held() {
    let abort = |c, f| Decision { next: None, pause_secs: 0, log: Some(LogLevel::Error), close_random: c, free_collector: f };
    assert_eq!(next_step(Stage::SelfTest, false), abort(false, false));
    assert_eq!(next_step(Stage::Allocate, false), abort(false, false));
    assert_eq!(next_step(Stage::OpenRandom, false), abort(false, true));
    assert_eq!(next_step(Stage::DropCaps, false), abort(true, true));
    assert_eq!(next_step(Stage::InitialSeed, false), abort(true, true));
}

#[test]
fn failed_reseed_is_retried() {
    let d = next_step(Stage::Reseed, false);
    assert_eq!(d, Decision {
        next: Some(Stage::Reseed),
        pause_secs: 512,
        log: Some(LogLevel::Warning),
        close_random: false,
        free_collector: false,
    });
    assert_eq!(next_step(Stage::Reseed, true).log, Some(LogLevel::Info));
}
