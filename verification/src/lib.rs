pub mod bytes;
pub mod zmodem;
pub mod text;
pub mod ssh_config;
pub mod serial;
pub mod telnet;
pub mod keyed;
pub mod negotiation;
pub mod session_state;
pub mod file_names;
pub mod sftp_files;
pub mod command_history;
pub mod local_terminal;
pub mod background;
pub mod native_drag;
pub mod fileio;
pub mod storage;
pub mod terminal_transfer;
pub mod remote_monitor;
pub mod editable_text;
pub mod clock;
pub mod secrets;
pub mod replace;
pub mod accounts;
pub mod host_keys;
pub mod auth;
pub mod range_download;
pub mod telnet_login;
pub mod remote_checks;
