use marmot_app::client::cursor::{
    clamp_to_max_future_skew, clamped_transport_cursor, next_transport_cursor, CursorPersistence,
};

const SKEW: u64 = 5 * 60;
const NOW: u64 = 1_800_000_000;

#[test]
fn frozen_policy_never_moves_the_cursor() {
    let loaded = Some(NOW - 100);
    assert_eq!(
        next_transport_cursor(CursorPersistence::Frozen, loaded, NOW, NOW, SKEW),
        loaded,
        "a newer in-range delivery must not advance a frozen cursor"
    );
    assert_eq!(
        next_transport_cursor(CursorPersistence::Frozen, loaded, NOW - 500, NOW, SKEW),
        loaded,
        "an older delivery must not move a frozen cursor either"
    );
    assert_eq!(
        next_transport_cursor(CursorPersistence::Frozen, None, NOW, NOW, SKEW),
        None,
        "a frozen cursor that never existed must stay absent"
    );
}

#[test]
fn advance_policy_is_the_unchanged_clamped_monotonic_max() {
    assert_eq!(
        next_transport_cursor(CursorPersistence::Advance, Some(NOW - 100), NOW, NOW, SKEW),
        Some(NOW),
        "an in-range delivery advances the cursor under Advance"
    );
    assert_eq!(
        next_transport_cursor(CursorPersistence::Advance, None, NOW, NOW, SKEW),
        Some(NOW),
        "a first delivery initializes the cursor under Advance"
    );
    let poisoned = NOW + 10 * 365 * 24 * 60 * 60;
    assert_eq!(
        next_transport_cursor(CursorPersistence::Advance, Some(NOW), poisoned, NOW, SKEW),
        Some(NOW + SKEW),
        "the future-skew clamp still bounds a hostile created_at"
    );
}

#[test]
fn in_range_timestamp_advances_cursor_unchanged() {
    assert_eq!(
        clamped_transport_cursor(Some(NOW - 100), NOW, NOW, SKEW),
        NOW
    );
    assert_eq!(clamped_transport_cursor(None, NOW, NOW, SKEW), NOW);
}

#[test]
fn far_future_timestamp_is_clamped_to_now_plus_skew() {
    let poisoned = NOW + 10 * 365 * 24 * 60 * 60;
    assert_eq!(
        clamped_transport_cursor(Some(NOW - 100), poisoned, NOW, SKEW),
        NOW + SKEW
    );
    assert_eq!(
        clamped_transport_cursor(None, poisoned, NOW, SKEW),
        NOW + SKEW
    );
}

#[test]
fn cursor_stays_monotonic_against_older_timestamps() {
    assert_eq!(
        clamped_transport_cursor(Some(NOW), NOW - 500, NOW, SKEW),
        NOW
    );
}

#[test]
fn timestamp_just_inside_skew_window_is_accepted() {
    let within = NOW + SKEW - 1;
    assert_eq!(
        clamped_transport_cursor(Some(NOW), within, NOW, SKEW),
        within
    );
}

#[test]
fn already_poisoned_cursor_is_healed_down_not_preserved() {
    let poisoned = NOW + 10 * 365 * 24 * 60 * 60;
    assert_eq!(
        clamped_transport_cursor(Some(poisoned), NOW, NOW, SKEW),
        NOW + SKEW,
        "a present-dated message must heal a poisoned future cursor down to now + skew"
    );
    let healed = clamped_transport_cursor(Some(poisoned), NOW, NOW, SKEW);
    let later = healed + 1_000;
    assert_eq!(
        clamped_transport_cursor(Some(healed), later, later, SKEW),
        later,
        "after healing, the cursor tracks present-dated messages again"
    );
}

#[test]
fn the_ceiling_saturates_at_the_end_of_time() {
    assert_eq!(clamp_to_max_future_skew(u64::MAX, u64::MAX - 1, 5), u64::MAX);
    assert_eq!(clamp_to_max_future_skew(7, 1, 5), 6);
    assert_eq!(clamp_to_max_future_skew(6, 1, 5), 6);
}
