//! A dashboard for a swarm of coding agents that work in parallel on the worktrees of one
//! repository.
//!
//! [`watcher`] decides what of the session files is to be read and what it says of sessions,
//! [`parser`] what the records in them mean, and [`docker`] what the container engine reports.
//! [`state`] holds all of it together: a lane for each worktree, with its agents and its stacks.
//! [`ui`] and [`detail`] say what is shown of it, and [`app`] joins the parts. What holds of the
//! state at every time is in [`validity`], and further laws are in [`laws`] and in the modules that
//! are named after it.
pub mod agent;
pub mod app;
pub mod assistant;
pub mod clock;
pub mod color;
pub mod detail;
pub mod docker;
pub mod lane;
pub mod laws;
pub mod laws_agents;
pub mod laws_containers;
pub mod laws_files;
pub mod laws_records;
pub mod laws_screen;
pub mod layout;
pub mod nav;
pub mod order;
pub mod paint;
pub mod parser;
pub mod seqs;
pub mod state;
pub mod text;
pub mod ui;
pub mod validity;
pub mod watcher;
