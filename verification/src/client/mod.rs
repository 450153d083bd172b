//! The account client: transport cursor, drains, recovery and visibility.

pub mod cursor;
pub mod events;
pub mod summary;
pub mod drain;
pub mod backfill_intent;
pub mod epoch_backfill;
pub mod backfill_run;
pub mod backfill_restore;
pub mod visibility;
pub mod replay;
pub mod reconcile;
pub mod reconcile_run;
pub mod observe;
pub mod app_client;
pub mod checkpoint_run;
pub mod visibility_replay;
pub mod effects;
pub mod projection_run;
pub mod events_run;
pub mod sync;
pub mod subscription_retry;
pub mod stall_evidence;
pub mod drain_run;
pub mod drain_laws;
pub mod queue_laws;
pub mod replay_laws;
pub mod step_laws;
pub mod restore_laws;
pub mod replay_start;
pub mod replay_run;
pub mod pass;
