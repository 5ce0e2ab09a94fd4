//! Verified core logic of the Every Code agent: context accounting, the auto
//! review run ledger, skill metadata validation and rendering, command policy
//! matching, account selection, sessions and leases, MCP credentials and
//! environments, the web gateway's rules and stream decisions, and small
//! protocol types.
pub mod text;
pub mod order;
pub mod context_ledger;
pub mod review_run;
pub mod review_detail;
pub mod review_ledger;
pub mod review_store;
pub mod skill_model;
pub mod command_policy;
pub mod skill_render;
pub mod skill_loader;
pub mod protocol;
pub mod oauth;
pub mod process_liveness;
pub mod account_switching;
pub mod active_sessions;
pub mod rollout_history;
pub mod gateway_web;
pub mod session_lease;
pub mod mcp_env;
pub mod keyed_list;
pub mod conversation_hub;
pub mod oauth_callback;
pub mod gateway_stream;
pub mod process_listing;
pub mod gateway_sessions;
pub mod rollout_cache;
pub mod tail_reader;
