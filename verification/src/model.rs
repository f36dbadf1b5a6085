//! The plain records that the client, the server and their front ends pass
//! around: start parameters, database rows, web requests and responses,
//! configuration, and the errors and events shown to users.
use vstd::prelude::*;

use crate::server::{ServerStats, TransportMode};

verus! {

/// What the relay server assigned to the client in its handshake.
pub struct StartParams {
    pub netmask: String,
    pub destination: String,
    pub ip_addr: String,
}

/// The client's state as reported to whoever watches it.
pub struct ClientState {}

/// A failure code of a client or server process.
#[derive(Debug, Clone, Copy, PartialEq, Eq, Structural)]
pub struct ProcessError(pub u32);

/// How the client writes its log lines.
#[derive(Debug, Clone, Copy, PartialEq, Eq, Structural)]
pub enum LogFormat {
    Pretty,
    Json,
    Logfmt,
}

impl Default for LogFormat {
    fn default() -> (r: LogFormat)
        ensures
            r == LogFormat::Pretty,
    {
        LogFormat::Pretty
    }
}

impl LogFormat {
    /// The format a front end selects by number: 1 for JSON, 2 for logfmt,
    /// anything else for the pretty format.
    pub fn from_index(log_format: i32) -> (r: LogFormat)
        ensures
            r == if log_format == 1 {
                LogFormat::Json
            } else if log_format == 2 {
                LogFormat::Logfmt
            } else {
                LogFormat::Pretty
            },
    {
        if log_format == 1 {
            LogFormat::Json
        } else if log_format == 2 {
            LogFormat::Logfmt
        } else {
            LogFormat::Pretty
        }
    }
}

/// The payload of a signed authentication key.
pub struct AuthData {
    pub client_id: String,
}

/// A link code's row: the client it authenticates and whether it was used.
pub struct AuthClient {
    pub client_id: Option<String>,
    pub used: Option<bool>,
}

/// An administrator of the web interface.
pub struct User {
    pub email: String,
    pub password_hash: String,
    pub role: String,
}

/// Why the database could not be used.
#[derive(Debug, Clone, Copy, PartialEq, Eq, Structural)]
pub enum ErrorCode {
    CannotConnect,
}

/// A request to create a client.
pub struct CreateClientRequest {
    pub sdn_client_ip: String,
    pub netmask: String,
}

/// A request to delete a client.
pub struct DeleteClientRequest {
    pub id: String,
}

/// A login request of the web interface.
pub struct LoginRequest {
    pub email: String,
    pub password: String,
}

/// The answer to a login request.
pub struct LoginResponse {
    pub success: bool,
}

/// What the web interface shows of the logged-in user.
pub struct UserDataResponse {
    pub email: String,
    pub role: String,
}

/// The claims of a web session token.
pub struct Claims {
    pub email: String,
    pub exp: usize,
}

/// The server's counters as the web interface shows them.
pub struct ServerStatsResponse {
    pub transport_mode: String,
    pub in_bytes: usize,
    pub out_bytes: usize,
}

impl ServerStatsResponse {
    /// The counters of `stats`, with the transport mode by name.
    pub fn from_stats(stats: &ServerStats) -> (r: ServerStatsResponse)
        ensures
            r.transport_mode@ == match stats.transport_mode {
                TransportMode::UDP => "udp"@,
                TransportMode::WebSocket => "websocket"@,
            },
            r.in_bytes == stats.in_bytes,
            r.out_bytes == stats.out_bytes,
    {
        ServerStatsResponse {
            transport_mode: stats.transport_mode.as_string(),
            in_bytes: stats.in_bytes,
            out_bytes: stats.out_bytes,
        }
    }
}

/// A message from the tray icon.
#[derive(Debug, Clone, Copy, PartialEq, Eq, Structural)]
pub enum TrayMessage {
    Quit,
}

/// What a front end configures a connection with.
pub struct NetplaneConfig {
    pub host: String,
    /// `0` selects the client's default port.
    pub port: u16,
    pub transport: String,
    pub link_code: String,
    pub tun_dev: String,
    pub authkey_path: String,
    pub public_key_path: String,
    pub private_key_path: String,
    /// `0` selects the default authentication port.
    pub auth_port: u16,
    pub loopback_relay: bool,
    pub no_encryption: bool,
}

/// A port setting where `0` selects the default.
pub fn optional_port(port: u16) -> (r: Option<u16>)
    ensures
        r == if port == 0 {
            None::<u16>
        } else {
            Some(port)
        },
{
    if port == 0 {
        None
    } else {
        Some(port)
    }
}

/// What a front end learns of a connection.
pub enum ConnectionEvent {
    Connecting,
    Connected { ip_addr: String, netmask: String },
    Disconnected,
    Error(String),
}

/// The addresses the relay assigned, for building the TUN device.
pub struct TunnelParams {
    pub ip_addr: String,
    pub netmask: String,
    pub destination: String,
}

/// An error the desktop application shows.
#[derive(Debug, Clone, Copy, PartialEq, Eq, Structural)]
pub enum AppError {
    NoServer,
    AuthKey,
    AuthCode,
    GenericError,
}

impl AppError {
    /// The error's name with its first letter in lower case, as the
    /// application shows it.
    pub fn message(&self) -> (r: String)
        ensures
            r@ == match self {
                AppError::NoServer => "noServer"@,
                AppError::AuthKey => "authKey"@,
                AppError::AuthCode => "authCode"@,
                AppError::GenericError => "genericError"@,
            },
    {
        match self {
            AppError::NoServer => "noServer".to_owned(),
            AppError::AuthKey => "authKey".to_owned(),
            AppError::AuthCode => "authCode".to_owned(),
            AppError::GenericError => "genericError".to_owned(),
        }
    }
}

} // verus!
