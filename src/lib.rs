pub mod broker;
pub mod client;
pub mod client_command;
pub mod frame;
pub mod guid;
pub mod login_client;
pub mod login_server;
pub mod raw_command;
pub mod server_messages;
pub mod util;
