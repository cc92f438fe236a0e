//! Named groups of federated account roles: selecting role grants, keeping
//! groups by name, and deriving what a listing shows for each account.

mod command;
mod report;
mod select;
mod store;
mod text;

pub use command::{
    add_group, parse_i32, parse_session_duration, selection_from_flags, DEFAULT_SESSION_DURATION,
};
pub use report::{
    current_session_status, decimal_text, lemma_arn_display_round_trip, render_arn, session_status, session_text, ArnDisplay,
    SessionStatus,
};
pub use select::{select_accounts, select_by_business_unit, select_by_names, Account, Selection};
pub use store::{
    lemma_upsert_idempotent, lemma_upsert_overwrites, Group, GroupError, GroupStore, UpsertOutcome,
};
pub use text::{chars_of, find_first, has_prefix, has_suffix};
