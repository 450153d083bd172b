//! The user directory: what is known of other accounts and how it is found.

pub mod entry;
pub mod merge;
pub mod merge_again;
pub mod merge_laws;
pub mod records;
pub mod key_packages;
pub mod self_nip65;
pub mod selection_laws;
pub mod cache;
pub mod member_cache;
pub mod app_state;
pub mod app_entry;
pub mod app_save;
pub mod app_remember;
pub mod app_ingest;
pub mod sync;
pub mod sync_laws;
pub mod app_warm;
pub mod app_laws;
pub mod save_laws;
pub mod ingest_laws;
pub mod store_laws;
pub mod app_kept;
pub mod app_fetch;
pub mod fetch_laws;
pub mod member_run;
pub mod members;
pub mod members_fetch;
pub mod members_packages;
pub mod member_laws;
pub mod request_laws;
pub mod read_laws;
pub mod layer_laws;
pub mod member_choice_laws;
pub mod search_match;
pub mod app_search;
pub mod search_answer_laws;
pub mod search_walk_laws;
pub mod search;
pub mod search_graph;
pub mod app_discovery;
pub mod discovery_laws;
pub mod search_run;
pub mod search_laws;
pub mod app_refresh;
