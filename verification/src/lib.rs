//! Verified core of the CrawlDS desktop services.
pub mod bytes;
pub mod clipboard;
mod clock;
pub mod ipc;
pub mod text;
pub mod text_order;
pub mod greeter_setup;
pub mod network;
pub mod greeter;
pub mod notify;
pub mod scheduler;
pub mod power;
pub mod shell;
pub mod client;
pub mod daemon;
pub mod display;
pub mod cli_args;
pub mod process;
pub mod bluetooth;
pub mod order;
pub mod wifi;
pub mod cli_route;
pub mod greeter_cli;
