use vasak_permissions::throttle::{NoticeThrottle, PromptThrottle, LIMIT, SILENCIO, WINDOW};

/// A moment on the clock, in milliseconds.
const AHORA: u64 = 5_000_000;

#[test]
fn a_handful_of_questions_goes_through() {
    let mut throttle = PromptThrottle::default();
    let now = AHORA;

    for attempt in 0..LIMIT {
        assert!(throttle.allow(1000, now), "prompt {attempt} should be allowed");
    }
}

#[test]
fn a_flood_is_stopped() {
    let mut throttle = PromptThrottle::default();
    let now = AHORA;

    for _ in 0..LIMIT {
        assert!(throttle.allow(1000, now));
    }
    assert!(!throttle.allow(1000, now), "the ceiling should hold");
}

#[test]
fn the_ceiling_lifts_once_the_window_passes() {
    let mut throttle = PromptThrottle::default();
    let start = AHORA;

    for _ in 0..LIMIT {
        assert!(throttle.allow(1000, start));
    }
    assert!(!throttle.allow(1000, start));

    let later = start + WINDOW + 1_000;
    assert!(throttle.allow(1000, later));
}

#[test]
fn the_window_expires_prompts_one_at_a_time() {
    let mut throttle = PromptThrottle::default();
    let start = AHORA;

    assert!(throttle.allow(1000, start));
    assert!(throttle.allow(1000, start));
    let mid = start + 30_000;
    for _ in 2..LIMIT {
        assert!(throttle.allow(1000, mid));
    }
    assert!(!throttle.allow(1000, mid));

    let after = start + WINDOW + 1_000;
    assert!(throttle.allow(1000, after));
    assert!(throttle.allow(1000, after));
    assert!(!throttle.allow(1000, after), "the later ones still count");
}

#[test]
fn one_user_being_flooded_does_not_silence_another() {
    let mut throttle = PromptThrottle::default();
    let now = AHORA;

    for _ in 0..LIMIT {
        assert!(throttle.allow(1000, now));
    }
    assert!(!throttle.allow(1000, now));

    assert!(throttle.allow(1001, now), "another user is unaffected");
}

#[test]
fn a_question_that_was_never_shown_gives_its_slot_back() {
    let mut throttle = PromptThrottle::default();
    let now = AHORA;

    for _ in 0..LIMIT {
        assert!(throttle.allow(1000, now));
        throttle.refund(1000);
    }

    assert!(
        throttle.allow(1000, now),
        "nothing was ever displayed, so nothing should have been spent"
    );
}

#[test]
fn refunding_a_user_with_nothing_pending_is_harmless() {
    let mut throttle = PromptThrottle::default();
    throttle.refund(1000);
    assert!(throttle.allow(1000, AHORA));
}

#[test]
fn a_question_exactly_one_window_old_no_longer_counts() {
    let mut throttle = PromptThrottle::new();
    for _ in 0..LIMIT {
        assert!(throttle.allow(7, 0));
    }
    assert!(!throttle.allow(7, WINDOW - 1));
    assert!(throttle.allow(7, WINDOW));
}

#[test]
fn a_clock_read_out_of_order_counts_as_no_time_passed() {
    let mut throttle = PromptThrottle::new();
    for _ in 0..LIMIT {
        assert!(throttle.allow(7, AHORA));
    }
    assert!(!throttle.allow(7, AHORA - 10));
}

#[test]
fn a_block_is_told_once_and_then_kept_quiet() {
    let mut avisos = NoticeThrottle::default();
    assert!(avisos.should_notify(1000, "/usr/bin/app", "camera", AHORA));
    assert!(!avisos.should_notify(1000, "/usr/bin/app", "camera", AHORA + 1_000));
    assert!(!avisos.should_notify(1000, "/usr/bin/app", "camera", AHORA + SILENCIO - 1));
    assert!(avisos.should_notify(1000, "/usr/bin/app", "camera", AHORA + SILENCIO));
}

#[test]
fn the_silence_is_per_user_program_and_resource() {
    let mut avisos = NoticeThrottle::new();
    assert!(avisos.should_notify(1000, "/usr/bin/app", "camera", AHORA));
    assert!(avisos.should_notify(1001, "/usr/bin/app", "camera", AHORA));
    assert!(avisos.should_notify(1000, "/usr/bin/otra", "camera", AHORA));
    assert!(avisos.should_notify(1000, "/usr/bin/app", "microphone", AHORA));
    assert!(!avisos.should_notify(1001, "/usr/bin/app", "camera", AHORA + 10));
}

#[test]
fn a_quiet_notice_does_not_restart_the_silence() {
    let mut avisos = NoticeThrottle::new();
    assert!(avisos.should_notify(7, "/usr/bin/app", "camera", AHORA));
    assert!(!avisos.should_notify(7, "/usr/bin/app", "camera", AHORA + SILENCIO - 5));
    assert!(avisos.should_notify(7, "/usr/bin/app", "camera", AHORA + SILENCIO + 1));
}

#[test]
fn other_notices_in_between_do_not_reopen_the_silence() {
    let mut avisos = NoticeThrottle::new();
    assert!(avisos.should_notify(7, "/usr/bin/app", "camera", AHORA));
    for (paso, uid) in [(10u64, 8u32), (20, 7), (30, 9)] {
        avisos.should_notify(uid, "/usr/bin/otra", "microphone", AHORA + paso);
        avisos.should_notify(uid, "/usr/bin/app", "microphone", AHORA + paso);
    }
    assert!(!avisos.should_notify(7, "/usr/bin/app", "camera", AHORA + SILENCIO - 1));
}
