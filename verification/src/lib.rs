//! Verified core of the Orbit runtime: the session log, crew selection,
//! task locks and lock surfaces, stale-reservation classification,
//! orchestrator invocation accounting, artifact auto-publication, the
//! coordination executor's task and friction rules, workspace root
//! discovery, run audit trails, and the audit records of coordination and
//! authorization decisions.
pub mod accounting;
pub mod audit;
pub mod commands;
pub mod crew;
pub mod decimal;
pub mod error;
pub mod friction;
pub mod hub;
pub mod identity;
pub mod invocation;
pub mod json;
pub mod locks;
pub mod publish;
pub mod reservations;
pub mod roots;
pub mod run_audit;
pub mod search;
pub mod session_log;
pub mod sorted;
pub mod text;
