//! The agent core: approval policy, todo list, events, retry schedule, tools,
//! prompt assembly, skills and the work journal.
pub mod agentmem;
pub mod background;
pub mod call;
pub mod compact;
pub mod event;
pub mod extension_ui;
pub mod graph;
pub mod hooks;
pub mod models;
pub mod permissions;
pub mod plan;
pub mod prompt;
pub mod react;
pub mod retry;
pub mod session;
pub mod skills;
pub mod tools;
pub mod transcripts;
pub mod turn;
pub mod work;
