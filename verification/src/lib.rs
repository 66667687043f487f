//! The decisions of a disk-cleanup tool: which paths to propose, whether one may be removed, in
//! which order, and when to stop.

pub mod acute;
pub mod acute_laws;
pub mod agent_surface;
pub mod airlock;
pub mod apply;
pub mod check;
pub mod check_laws;
pub mod classify;
pub mod cloud_laws;
pub mod detect;
pub mod detect_laws;
pub mod doctor;
pub mod doubles;
pub mod drill;
pub mod drill_laws;
pub mod execute;
pub mod explain;
pub mod find_laws;
pub mod globs;
pub mod grant;
pub mod grant_cmd;
pub mod guard;
pub mod history;
pub mod hunt;
pub mod hunt_laws;
pub mod ledger_laws;
pub mod model;
pub mod number_laws;
pub mod numbers;
pub mod order;
pub mod path_laws;
pub mod paths;
pub mod plan;
pub mod profile_cmd;
pub mod profile_laws;
pub mod proposal_laws;
pub mod reclaim;
pub mod reclaim_laws;
pub mod recovery_laws;
pub mod removal_laws;
pub mod report;
pub mod report_laws;
pub mod scan;
pub mod selfcheck;
pub mod selfcheck_laws;
pub mod size_laws;
pub mod store;
pub mod stow;
pub mod text;
pub mod time_laws;
pub mod top;
pub mod view_laws;
pub mod walk;
pub mod watch;
pub mod watch_laws;
pub mod welcome;
pub mod wizard;
