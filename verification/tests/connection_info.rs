use daysquare_backend::configuration::{ServerSettings, ServerSettingsInner};
use daysquare_backend::http::{ConnectionInfo, RequestHead};

fn cfg(secure: bool) -> ServerSettings {
    ServerSettings::new(ServerSettingsInner {
        host: "server.local".to_string(),
        application_port: 8000,
        secure,
    })
}

fn head() -> RequestHead {
    RequestHead {
        forwarded: Vec::new(),
        x_forwarded_for: None,
        x_forwarded_proto: None,
        x_forwarded_host: None,
        host: None,
        uri_scheme: None,
        uri_authority: None,
        peer_addr: None,
    }
}

#[test]
fn forwarded_header_gives_all_three() {
    let mut h = head();
    h.forwarded.push("for=192.0.2.60;proto=https;by=203.0.113.43;host=example.com".to_string());
    h.x_forwarded_for = Some("10.0.0.1".to_string());
    h.x_forwarded_proto = Some("http".to_string());
    h.x_forwarded_host = Some("other.com".to_string());
    h.host = Some("host.header".to_string());
    h.peer_addr = Some("127.0.0.1:5000".to_string());
    let info = ConnectionInfo::new(&h, &cfg(false));
    assert_eq!(info.realip_remote_addr(), Some("192.0.2.60"));
    assert_eq!(info.scheme(), "https");
    assert_eq!(info.host(), "example.com");
    assert_eq!(info.remote_addr(), Some("127.0.0.1:5000"));
}

#[test]
fn forwarded_names_ignore_ascii_case_and_values_are_trimmed() {
    let mut h = head();
    h.forwarded.push(" For = x ; PROTO= HTTP , Host=  a.b  ".to_string());
    let info = ConnectionInfo::new(&h, &cfg(false));
    // "For " is not the name "for": the name is not trimmed.
    assert_eq!(info.realip_remote_addr(), None);
    assert_eq!(info.scheme(), "HTTP");
    assert_eq!(info.host(), "a.b");
}

#[test]
fn first_forwarded_element_wins() {
    let mut h = head();
    h.forwarded.push("proto=ws, for=first".to_string());
    h.forwarded.push("proto=wss;for=second;host=h2".to_string());
    let info = ConnectionInfo::new(&h, &cfg(true));
    assert_eq!(info.scheme(), "ws");
    assert_eq!(info.realip_remote_addr(), Some("first"));
    assert_eq!(info.host(), "h2");
}

#[test]
fn elements_without_value_are_skipped() {
    let mut h = head();
    h.forwarded.push("for;proto;host=;for=z".to_string());
    let info = ConnectionInfo::new(&h, &cfg(false));
    assert_eq!(info.realip_remote_addr(), Some("z"));
    assert_eq!(info.host(), "");
    assert_eq!(info.scheme(), "http");
}

#[test]
fn x_forwarded_headers_take_their_first_item() {
    let mut h = head();
    h.x_forwarded_for = Some(" 203.0.113.195 , 70.41.3.18".to_string());
    h.x_forwarded_proto = Some("https ,http".to_string());
    h.x_forwarded_host = Some("id42.example-cdn.com, other".to_string());
    h.host = Some("ignored".to_string());
    let info = ConnectionInfo::new(&h, &cfg(false));
    assert_eq!(info.realip_remote_addr(), Some("203.0.113.195"));
    assert_eq!(info.scheme(), "https");
    assert_eq!(info.host(), "id42.example-cdn.com");
}

#[test]
fn uri_and_host_header_are_used_next() {
    let mut h = head();
    h.host = Some("example.org:8080".to_string());
    h.uri_scheme = Some("http".to_string());
    h.uri_authority = Some("authority.org".to_string());
    let info = ConnectionInfo::new(&h, &cfg(true));
    assert_eq!(info.host(), "example.org:8080");
    assert_eq!(info.scheme(), "http");

    let mut h = head();
    h.uri_authority = Some("authority.org".to_string());
    let info = ConnectionInfo::new(&h, &cfg(false));
    assert_eq!(info.host(), "authority.org");
}

#[test]
fn server_settings_are_the_last_resort() {
    let info = ConnectionInfo::new(&head(), &cfg(true));
    assert_eq!(info.scheme(), "https");
    assert_eq!(info.host(), "server.local");
    assert_eq!(info.realip_remote_addr(), None);
    assert_eq!(info.remote_addr(), None);
    let info = ConnectionInfo::new(&head(), &cfg(false));
    assert_eq!(info.scheme(), "http");
}

#[test]
fn realip_falls_back_to_peer_address() {
    let mut h = head();
    h.peer_addr = Some("198.51.100.7:443".to_string());
    let info = ConnectionInfo::new(&h, &cfg(false));
    assert_eq!(info.realip_remote_addr(), Some("198.51.100.7:443"));
    assert_eq!(info.remote_addr(), Some("198.51.100.7:443"));
}
