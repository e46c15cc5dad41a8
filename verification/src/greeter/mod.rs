//! Greeter integration: PAM stack inspection, external authentication
//! probes, the greetd session state machine and the remembered session.
pub mod config;
pub mod external;
pub mod greetd;
pub mod memory;
pub mod pam;
pub mod types;
