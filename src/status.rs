use vstd::prelude::*;
use vstd::string::*;
use crate::text::chars_of;

verus! {

/// The body of a service's status response.
pub struct ApiResponse {
    pub service: String,
    pub status: String,
    pub message: String,
    pub timestamp: String,
}

/// The state of the connection to the catalog store.
pub struct ConnectionStatus {
    pub connected: bool,
    pub database_name: String,
    pub server_info: Option<String>,
    pub error: Option<String>,
}

/// The state of the connection to the suggestion index.
pub struct RedisStatus {
    pub connected: bool,
    pub server_info: Option<String>,
    pub error: Option<String>,
}

/// How a connection state is reported: a status word, a message, and whether the
/// service is available.
pub struct StatusReport {
    pub status: String,
    pub message: String,
    pub available: bool,
}

/// The characters of `o`, or `d` when it is absent.
pub open spec fn text_or(o: Option<String>, d: Seq<char>) -> Seq<char> {
    match o {
        Some(s) => s@,
        None => d,
    }
}

fn string_or(o: &Option<String>, d: &str) -> (r: String)
    ensures
        r@ == text_or(*o, d@),
{
    match o {
        Some(s) => s.clone(),
        None => String::from_str(d),
    }
}

/// The status word of a connection.
pub open spec fn status_word(connected: bool) -> Seq<char> {
    if connected {
        "connected"@
    } else {
        "disconnected"@
    }
}

impl ApiResponse {
    /// A response with the given fields.
    pub fn new(service: &str, status: &str, message: &str, timestamp: String) -> (r: ApiResponse)
        ensures
            r.service@ == service@,
            r.status@ == status@,
            r.message@ == message@,
            r.timestamp == timestamp,
    {
        ApiResponse {
            service: String::from_str(service),
            status: String::from_str(status),
            message: String::from_str(message),
            timestamp,
        }
    }
}

impl ConnectionStatus {
    /// The state after a ping of database `database_name`: `ping` is the ping's
    /// error if it failed, and `version` what the server reported of its version
    /// (`Err` when that query failed).
    pub fn from_ping(database_name: String, ping: Result<(), String>, version: Result<Option<String>, ()>) -> (r: ConnectionStatus)
        ensures
            r.database_name == database_name,
            r.connected == ping is Ok,
            ping matches Err(e) ==> r.server_info is None && r.error == Some(e),
            ping is Ok ==> r.error is None && (r.server_info matches Some(info) && info@ == match version {
                Ok(Some(v)) => "MongoDB "@ + v@,
                Ok(None) => "MongoDB unknown"@,
                Err(_) => "MongoDB (version unknown)"@,
            }),
    {
        match ping {
            Ok(()) => {
                let info = match version {
                    Ok(Some(v)) => {
                        let mut s = String::from_str("MongoDB ");
                        s.append(v.as_str());
                        s
                    },
                    Ok(None) => String::from_str("MongoDB unknown"),
                    Err(()) => String::from_str("MongoDB (version unknown)"),
                };
                ConnectionStatus { connected: true, database_name, server_info: Some(info), error: None }
            },
            Err(e) => ConnectionStatus { connected: false, database_name, server_info: None, error: Some(e) },
        }
    }

    /// The state when no connection could be made.
    pub fn unreachable(error: String) -> (r: ConnectionStatus)
        ensures
            !r.connected,
            r.database_name@ == "unknown"@,
            r.server_info is None,
            r.error == Some(error),
    {
        ConnectionStatus {
            connected: false,
            database_name: String::from_str("unknown"),
            server_info: None,
            error: Some(error),
        }
    }

    /// How the state is reported.
    pub fn report(&self) -> (r: StatusReport)
        ensures
            r.available == self.connected,
            r.status@ == status_word(self.connected),
            self.connected ==> r.message@ == "Connected to "@ + self.database_name@ + " - "@ + text_or(
                self.server_info,
                "MongoDB"@,
            ),
            !self.connected ==> r.message@ == "Connection failed: "@ + text_or(self.error, "Unknown error"@),
    {
        if self.connected {
            let mut m = String::from_str("Connected to ");
            m.append(self.database_name.as_str());
            m.append(" - ");
            let info = string_or(&self.server_info, "MongoDB");
            m.append(info.as_str());
            StatusReport { status: String::from_str("connected"), message: m, available: true }
        } else {
            let mut m = String::from_str("Connection failed: ");
            let e = string_or(&self.error, "Unknown error");
            m.append(e.as_str());
            StatusReport { status: String::from_str("disconnected"), message: m, available: false }
        }
    }
}

impl RedisStatus {
    /// The state after a ping: the server's reply, or the error.
    pub fn from_ping(reply: Result<String, String>) -> (r: RedisStatus)
        ensures
            reply matches Ok(s) ==> r.error is None && (r.connected <==> s@ == "PONG"@) && (
            r.server_info matches Some(info) && info@ == if s@ == "PONG"@ {
                "Redis server responded with PONG"@
            } else {
                "Unexpected response: "@ + s@
            }),
            reply matches Err(e) ==> !r.connected && r.server_info is None && r.error == Some(e),
    {
        match reply {
            Ok(s) => {
                let c = chars_of(s.as_str());
                let pong = chars_of("PONG");
                if crate::text::same(&c, &pong) {
                    RedisStatus {
                        connected: true,
                        server_info: Some(String::from_str("Redis server responded with PONG")),
                        error: None,
                    }
                } else {
                    let mut m = String::from_str("Unexpected response: ");
                    m.append(s.as_str());
                    RedisStatus { connected: false, server_info: Some(m), error: None }
                }
            },
            Err(e) => RedisStatus { connected: false, server_info: None, error: Some(e) },
        }
    }

    /// The state when no connection could be made.
    pub fn unreachable(error: String) -> (r: RedisStatus)
        ensures
            !r.connected,
            r.server_info is None,
            r.error == Some(error),
    {
        RedisStatus { connected: false, server_info: None, error: Some(error) }
    }

    /// How the state is reported.
    pub fn report(&self) -> (r: StatusReport)
        ensures
            r.available == self.connected,
            r.status@ == status_word(self.connected),
            self.connected ==> r.message@ == text_or(self.server_info, "Redis connected"@),
            !self.connected ==> r.message@ == "Connection failed: "@ + text_or(self.error, "Unknown error"@),
    {
        if self.connected {
            let m = string_or(&self.server_info, "Redis connected");
            StatusReport { status: String::from_str("connected"), message: m, available: true }
        } else {
            let mut m = String::from_str("Connection failed: ");
            let e = string_or(&self.error, "Unknown error");
            m.append(e.as_str());
            StatusReport { status: String::from_str("disconnected"), message: m, available: false }
        }
    }
}

} // verus!
