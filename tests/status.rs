use terminology::status::{ApiResponse, ConnectionStatus, RedisStatus};

#[test]
fn catalog_store_status_reports() {
    let up = ConnectionStatus::from_ping("fhir".to_string(), Ok(()), Ok(Some("7.0".to_string())));
    assert!(up.connected);
    assert_eq!(up.server_info, Some("MongoDB 7.0".to_string()));
    let r = up.report();
    assert_eq!(r.status, "connected");
    assert_eq!(r.message, "Connected to fhir - MongoDB 7.0");
    assert!(r.available);
    let unknown = ConnectionStatus::from_ping("fhir".to_string(), Ok(()), Err(()));
    assert_eq!(unknown.server_info, Some("MongoDB (version unknown)".to_string()));
    let down = ConnectionStatus::from_ping("fhir".to_string(), Err("refused".to_string()), Ok(None));
    assert!(!down.connected);
    assert_eq!(down.report().message, "Connection failed: refused");
    let gone = ConnectionStatus::unreachable("no route".to_string());
    assert_eq!(gone.database_name, "unknown");
    assert_eq!(gone.report().status, "disconnected");
}

#[test]
fn suggestion_index_status_reports() {
    let up = RedisStatus::from_ping(Ok("PONG".to_string()));
    assert!(up.connected);
    assert_eq!(up.report().message, "Redis server responded with PONG");
    let odd = RedisStatus::from_ping(Ok("OK".to_string()));
    assert!(!odd.connected);
    assert_eq!(odd.server_info, Some("Unexpected response: OK".to_string()));
    assert_eq!(odd.report().message, "Connection failed: Unknown error");
    let down = RedisStatus::from_ping(Err("timeout".to_string()));
    assert_eq!(down.error, Some("timeout".to_string()));
    assert_eq!(RedisStatus::unreachable("x".to_string()).report().message, "Connection failed: x");
}

#[test]
fn api_response_fields() {
    let r = ApiResponse::new("FHIR Terminology Server", "healthy", "Server is running successfully", "t".to_string());
    assert_eq!(r.service, "FHIR Terminology Server");
    assert_eq!(r.status, "healthy");
    assert_eq!(r.timestamp, "t");
}
