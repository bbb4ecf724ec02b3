//! Account pools, quota-aware routing and the local control surface of a
//! multi-account Kimi Code router.

pub mod account_view;
pub mod acp_config;
pub mod acp_form;
pub mod app_state;
pub mod cli;
pub mod control;
pub mod dates;
pub mod home;
pub mod paths;
pub mod quota;
pub mod recommend;
pub mod routing;
pub mod runtime_config;
pub mod table;
pub mod text;
pub mod vscode;
pub mod watch;
pub mod worker;
