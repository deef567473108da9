use reqwest::header::{HeaderMap, HeaderValue};
use webrtc_http_media::link_header::{
    ice_servers_from_values, parse_ice_server_entry, parse_ice_servers_from_headers,
    parse_param_value, split_link_header_value,
};

#[test]
fn test_split_link_header_value() {
    let value = r#"<stun:stun.l.google.com:19302>; rel="ice-server""#;
    let entries = split_link_header_value(value);
    assert_eq!(entries.len(), 1);
}

#[test]
fn test_split_link_header_value_multiple() {
    let value = r#"<stun:stun1>; rel="ice-server", <turn:turn1>; rel="ice-server"; username="user"; credential="pass""#;
    let entries = split_link_header_value(value);
    assert_eq!(entries.len(), 2);
}

#[test]
fn test_parse_ice_server_entry_stun() {
    let entry = r#"<stun:stun.l.google.com:19302>; rel="ice-server""#;
    let server = parse_ice_server_entry(entry);
    assert!(server.is_some());
    let server = server.unwrap();
    assert_eq!(server.urls, vec!["stun:stun.l.google.com:19302"]);
}

#[test]
fn test_parse_ice_server_entry_turn() {
    let entry =
        r#"<turn:turn.example.com:3478>; rel="ice-server"; username="user"; credential="pass""#;
    let server = parse_ice_server_entry(entry);
    assert!(server.is_some());
    let server = server.unwrap();
    assert_eq!(server.urls, vec!["turn:turn.example.com:3478"]);
    assert_eq!(server.username, "user");
    assert_eq!(server.password, "pass");
}

#[test]
fn test_parse_ice_server_entry_not_ice() {
    let entry = r#"<http://example.com>; rel="something-else""#;
    let server = parse_ice_server_entry(entry);
    assert!(server.is_none());
}

#[test]
fn test_parse_param_value_quoted() {
    assert_eq!(parse_param_value(r#""value""#), Some("value".to_string()));
}

#[test]
fn test_parse_param_value_unquoted() {
    assert_eq!(parse_param_value("value"), Some("value".to_string()));
}

#[test]
fn test_parse_param_value_empty() {
    assert_eq!(parse_param_value(""), None);
    assert_eq!(parse_param_value(r#""""#), None);
}

#[test]
fn commas_in_quotes_do_not_split() {
    let entries = split_link_header_value(" <a>; x=\"1,2\" ,, \t<b> ,");
    assert_eq!(entries, vec!["<a>; x=\"1,2\"", "<b>"]);
    assert!(split_link_header_value(" , ,\u{3000}").is_empty());
    // A quote that is never closed covers the rest.
    assert_eq!(split_link_header_value("a\",b"), vec!["a\",b"]);
}

#[test]
fn odd_parameter_values() {
    assert_eq!(parse_param_value("\""), Some("\"".to_string()));
    assert_eq!(parse_param_value("  \"a b\"\u{a0}"), Some("a b".to_string()));
    assert_eq!(parse_param_value("\"open"), Some("\"open".to_string()));
    assert_eq!(parse_param_value("\u{2003}"), None);
}

#[test]
fn odd_entries() {
    // Words of rel, keys with spaces, and the last value of a key.
    let server = parse_ice_server_entry(
        "\t<  turn:t >; ; rel = \"next ice-server\" ;username=a; username=b; username; credential=\"p=q\"",
    )
    .unwrap();
    assert_eq!(server.urls, vec!["turn:t"]);
    assert_eq!(server.username, "b");
    assert_eq!(server.password, "p=q");
    assert!(parse_ice_server_entry("<>; rel=ice-server").is_none());
    assert!(parse_ice_server_entry("stun:x; rel=ice-server").is_none());
    assert!(parse_ice_server_entry("<stun:x; rel=ice-server").is_none());
    assert!(parse_ice_server_entry("<stun:x>; REL=ice-server").is_none());
    assert!(parse_ice_server_entry("<stun:x>; rel=ice-servers").is_none());
    let plain = parse_ice_server_entry("<stun:x>;rel=ice-server").unwrap();
    assert_eq!(plain.username, "");
    assert_eq!(plain.password, "");
}

#[test]
fn servers_of_header_values() {
    let values = [
        Some("<stun:a>; rel=ice-server, <http://b>; rel=next".to_string()),
        None,
        Some("<turn:c>; rel=ice-server; username=u; credential=p".to_string()),
    ];
    let servers = ice_servers_from_values(&values);
    assert_eq!(servers.len(), 2);
    assert_eq!(servers[0].urls, vec!["stun:a"]);
    assert_eq!(servers[1].urls, vec!["turn:c"]);
    assert_eq!(servers[1].username, "u");
}

#[test]
fn servers_of_a_header_map() {
    let mut headers = HeaderMap::new();
    headers.append("Link", HeaderValue::from_static("<stun:a>; rel=\"ice-server\""));
    headers.append("X-Other", HeaderValue::from_static("<stun:z>; rel=\"ice-server\""));
    headers.append("link", HeaderValue::from_bytes(b"<stun:\xFF>; rel=\"ice-server\"").unwrap());
    headers.append("LINK", HeaderValue::from_static("<stun:b>;\trel=\"ice-server\", <stun:c>"));
    let servers = parse_ice_servers_from_headers(&headers);
    let urls: Vec<&str> = servers.iter().map(|s| s.urls[0].as_str()).collect();
    assert_eq!(urls, vec!["stun:a", "stun:b"]);
    assert!(parse_ice_servers_from_headers(&HeaderMap::new()).is_empty());
}
