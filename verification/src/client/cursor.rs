//! The transport cursor: the time floor from which relays are asked again.

use vstd::prelude::*;

verus! {

/// Whether a runtime may move the stored transport cursor.
#[derive(Clone, Copy, Debug, PartialEq, Eq, Structural)]
pub enum CursorPersistence {
    Advance,
    Frozen,
}

/// The latest time a cursor may hold: `now` plus the tolerated skew.
pub open spec fn cursor_ceiling(now: u64, max_future_skew_secs: u64) -> int {
    if now + max_future_skew_secs > u64::MAX {
        u64::MAX as int
    } else {
        now + max_future_skew_secs
    }
}

/// A time, cut off at the ceiling.
pub open spec fn clamp_spec(timestamp: u64, now: u64, max_future_skew_secs: u64) -> int {
    if timestamp as int <= cursor_ceiling(now, max_future_skew_secs) {
        timestamp as int
    } else {
        cursor_ceiling(now, max_future_skew_secs)
    }
}

/// The later of the clamped current cursor and the clamped candidate.
pub open spec fn cursor_spec(
    current: Option<u64>,
    candidate: u64,
    now: u64,
    max_future_skew_secs: u64,
) -> int {
    let clamped = clamp_spec(candidate, now, max_future_skew_secs);
    match current {
        Some(cursor) => {
            let healed = clamp_spec(cursor, now, max_future_skew_secs);
            if healed >= clamped {
                healed
            } else {
                clamped
            }
        },
        None => clamped,
    }
}

/// Cuts a sender-controlled time off at `now` plus the tolerated skew.
pub fn clamp_to_max_future_skew(timestamp: u64, now: u64, max_future_skew_secs: u64) -> (clamped:
    u64)
    ensures
        clamped == clamp_spec(timestamp, now, max_future_skew_secs),
{
    let ceiling: u64 = now.saturating_add(max_future_skew_secs);
    if timestamp <= ceiling {
        timestamp
    } else {
        ceiling
    }
}

/// The next cursor from an untrusted inbound time. The current cursor is clamped
/// too, so that one already in the far future is brought back.
pub fn clamped_transport_cursor(
    current: Option<u64>,
    candidate: u64,
    now: u64,
    max_future_skew_secs: u64,
) -> (next: u64)
    ensures
        next == cursor_spec(current, candidate, now, max_future_skew_secs),
{
    let clamped: u64 = clamp_to_max_future_skew(candidate, now, max_future_skew_secs);
    match current {
        Some(cursor) => {
            let healed: u64 = clamp_to_max_future_skew(cursor, now, max_future_skew_secs);
            if healed >= clamped {
                healed
            } else {
                clamped
            }
        },
        None => clamped,
    }
}

/// Applies the cursor policy: frozen leaves the cursor as it is, absent included.
pub fn next_transport_cursor(
    policy: CursorPersistence,
    current: Option<u64>,
    candidate: u64,
    now: u64,
    max_future_skew_secs: u64,
) -> (next: Option<u64>)
    ensures
        policy is Frozen ==> next == current,
        policy is Advance ==> next is Some && next->Some_0 == cursor_spec(
            current,
            candidate,
            now,
            max_future_skew_secs,
        ),
{
    match policy {
        CursorPersistence::Frozen => current,
        CursorPersistence::Advance => Some(
            clamped_transport_cursor(current, candidate, now, max_future_skew_secs),
        ),
    }
}

/// No sender can push the cursor past the ceiling, whatever it was before.
pub proof fn law_cursor_never_passes_the_ceiling(
    current: Option<u64>,
    candidate: u64,
    now: u64,
    max_future_skew_secs: u64,
)
    ensures
        cursor_spec(current, candidate, now, max_future_skew_secs) <= cursor_ceiling(
            now,
            max_future_skew_secs,
        ),
{
}

/// A cursor that is not past the ceiling never moves back.
pub proof fn law_cursor_is_monotonic(
    current: u64,
    candidate: u64,
    now: u64,
    max_future_skew_secs: u64,
)
    requires
        current as int <= cursor_ceiling(now, max_future_skew_secs),
    ensures
        cursor_spec(Some(current), candidate, now, max_future_skew_secs) >= current,
{
}

/// A message dated within the tolerance and not before the cursor becomes the cursor.
pub proof fn law_cursor_follows_a_newer_message(
    current: Option<u64>,
    candidate: u64,
    now: u64,
    max_future_skew_secs: u64,
)
    requires
        candidate as int <= cursor_ceiling(now, max_future_skew_secs),
        current matches Some(cursor) ==> cursor <= candidate,
    ensures
        cursor_spec(current, candidate, now, max_future_skew_secs) == candidate,
{
}

/// The order in which two messages arrive does not matter to the cursor.
pub proof fn law_cursor_order_is_irrelevant(
    current: Option<u64>,
    first: u64,
    second: u64,
    now: u64,
    max_future_skew_secs: u64,
)
    ensures
        cursor_spec(
            Some(cursor_spec(current, first, now, max_future_skew_secs) as u64),
            second,
            now,
            max_future_skew_secs,
        ) == cursor_spec(
            Some(cursor_spec(current, second, now, max_future_skew_secs) as u64),
            first,
            now,
            max_future_skew_secs,
        ),
{
}

} // verus!
