pub mod config;
pub mod config_laws;
pub mod cycle;
pub mod cycle_laws;
pub mod digest;
pub mod docker;
pub mod docker_laws;
pub mod history;
pub mod name_map;
pub mod notifier;
pub mod notifier_laws;
pub mod number;
pub mod order;
pub mod plan;
pub mod plan_laws;
pub mod policy;
pub mod policy_laws;
pub mod poll;
pub mod rate_limiter;
pub mod saved;
pub mod state;
pub mod step_laws;
pub mod text;
pub mod time;
pub mod upgrade;
pub mod upgrade_laws;
