use ssh_manager::codec::{classify, value, Field};
use ssh_manager::connection::Connection;
use ssh_manager::error::ConnectionError;

fn profile(host: &str, username: &str, port: u32, private_key: Option<&str>) -> Connection {
    Connection {
        host: host.to_string(),
        username: username.to_string(),
        port,
        private_key: private_key.map(|key| key.to_string()),
    }
}

fn chars(s: &str) -> Vec<char> {
    s.chars().collect()
}

#[test]
fn writes_user_and_host_only_for_default_port() {
    let line = profile("h1", "u1", 22, None).to_string();
    assert_eq!(line, "username:u1|host:h1");
}

#[test]
fn writes_all_four_segments_in_order() {
    let line = profile("example.com", "alice", 2222, Some("/home/alice/.ssh/id")).to_string();
    assert_eq!(line, "username:alice|host:example.com|port:2222|private_key:/home/alice/.ssh/id");
}

#[test]
fn writes_port_segment_unless_default() {
    assert_eq!(profile("h", "u", 22, None).to_string(), "username:u|host:h");
    assert_eq!(profile("h", "u", 0, None).to_string(), "username:u|host:h|port:0");
    assert_eq!(profile("h", "u", 21, None).to_string(), "username:u|host:h|port:21");
    assert_eq!(profile("h", "u", 23, None).to_string(), "username:u|host:h|port:23");
    assert_eq!(
        profile("h", "u", u32::MAX, None).to_string(),
        "username:u|host:h|port:4294967295"
    );
    for port in 0..3000u32 {
        let line = profile("h", "u", port, None).to_string();
        assert_eq!(line.contains("|port:"), port != 22);
    }
}

#[test]
fn writes_nothing_for_the_empty_profile() {
    assert_eq!(Connection::default().to_string(), "");
}

#[test]
fn writes_a_lone_segment_without_separator() {
    assert_eq!(profile("", "", 8022, None).to_string(), "port:8022");
    assert_eq!(profile("h", "", 22, None).to_string(), "host:h");
    assert_eq!(profile("", "", 22, Some("")).to_string(), "private_key:");
}

#[test]
fn writes_values_without_escaping() {
    assert_eq!(profile("a|b", "c:d", 22, None).to_string(), "username:c:d|host:a|b");
}

#[test]
fn line_ends_with_one_line_feed() {
    assert_eq!(profile("h1", "u1", 22, None).to_line(), "username:u1|host:h1\n");
}

#[test]
fn reads_line_with_white_space_everywhere() {
    let read = Connection::from_str("  username : alice | host : example.com ").unwrap();
    assert_eq!(read, profile("example.com", "alice", 22, None));
}

#[test]
fn white_space_inside_a_value_is_lost() {
    let read = Connection::from_str("host:my host|username:a\tb\u{a0}c").unwrap();
    assert_eq!(read, profile("myhost", "abc", 22, None));
}

#[test]
fn label_anywhere_in_the_segment_counts() {
    let read = Connection::from_str("myhostname:foo").unwrap();
    assert_eq!(read, profile("foo", "", 22, None));
}

#[test]
fn first_label_in_order_wins() {
    let read = Connection::from_str("username:host").unwrap();
    assert_eq!(read, profile("", "host", 22, None));
    let read = Connection::from_str("private_key:/home/username/id").unwrap();
    assert_eq!(read, profile("", "/home/username/id", 22, None));
    let read = Connection::from_str("private_key:/srv/host/id|username:u").unwrap();
    assert_eq!(read, profile("/srv/host/id", "u", 22, None));
    assert_eq!(classify(&chars("port:host:username")), Some(Field::Username));
    assert_eq!(classify(&chars("port:host")), Some(Field::Host));
    assert_eq!(classify(&chars("private_key:port")), Some(Field::Port));
    assert_eq!(classify(&chars("private_key:x")), Some(Field::PrivateKey));
    assert_eq!(classify(&chars("nothing:x")), None);
    assert_eq!(classify(&chars("")), None);
}

#[test]
fn label_is_read_in_lower_case_only() {
    assert_eq!(classify(&chars("Host:h")), None);
    assert_eq!(
        Connection::from_str("HOST:h"),
        Err(ConnectionError::MissingRequiredFields)
    );
}

#[test]
fn value_is_all_after_the_first_colon() {
    assert_eq!(value(&chars("host:a")), chars("a"));
    assert_eq!(value(&chars("host:a:b")), chars("a:b"));
    assert_eq!(value(&chars("host:")), chars(""));
    assert_eq!(value(&chars(":x")), chars("x"));
    assert_eq!(value(&chars("host")), chars(""));
    assert_eq!(value(&chars("")), chars(""));
    let read = Connection::from_str("username:u|private_key:C:/keys/id").unwrap();
    assert_eq!(read, profile("", "u", 22, Some("C:/keys/id")));
}

#[test]
fn later_segment_overrides_earlier() {
    let read = Connection::from_str("host:a|host:b|username:u|port:1|port:2").unwrap();
    assert_eq!(read, profile("b", "u", 2, None));
}

#[test]
fn segment_without_label_is_passed_over() {
    let read = Connection::from_str("note:x||host:h|").unwrap();
    assert_eq!(read, profile("h", "", 22, None));
}

#[test]
fn order_of_segments_is_free() {
    let read = Connection::from_str("private_key:/k|port:2200|host:h|username:u").unwrap();
    assert_eq!(read, profile("h", "u", 2200, Some("/k")));
}

#[test]
fn rejects_line_without_host_and_user() {
    assert_eq!(Connection::from_str(""), Err(ConnectionError::MissingRequiredFields));
    assert_eq!(Connection::from_str("   "), Err(ConnectionError::MissingRequiredFields));
    assert_eq!(Connection::from_str("port:2222"), Err(ConnectionError::MissingRequiredFields));
    assert_eq!(
        Connection::from_str("private_key:/k|port:1"),
        Err(ConnectionError::MissingRequiredFields)
    );
    assert_eq!(
        Connection::from_str("host:|username:"),
        Err(ConnectionError::MissingRequiredFields)
    );
    assert_eq!(Connection::from_str("host"), Err(ConnectionError::MissingRequiredFields));
}

#[test]
fn accepts_line_with_only_one_of_host_and_user() {
    assert_eq!(Connection::from_str("username:bob"), Ok(profile("", "bob", 22, None)));
    assert_eq!(Connection::from_str("host:example.com"), Ok(profile("example.com", "", 22, None)));
}

#[test]
fn rejects_port_that_is_no_number() {
    assert_eq!(Connection::from_str("host:h|port:abc"), Err(ConnectionError::InvalidPort));
    assert_eq!(Connection::from_str("host:h|port:"), Err(ConnectionError::InvalidPort));
    assert_eq!(Connection::from_str("host:h|port"), Err(ConnectionError::InvalidPort));
    assert_eq!(Connection::from_str("host:h|port:-1"), Err(ConnectionError::InvalidPort));
    assert_eq!(Connection::from_str("host:h|port:22x"), Err(ConnectionError::InvalidPort));
    assert_eq!(Connection::from_str("host:h|port:2:2"), Err(ConnectionError::InvalidPort));
    assert_eq!(Connection::from_str("host:h|port:4294967296"), Err(ConnectionError::InvalidPort));
}

#[test]
fn port_error_comes_before_missing_fields() {
    assert_eq!(Connection::from_str("port:x"), Err(ConnectionError::InvalidPort));
    assert_eq!(Connection::from_str("port:x|host:h"), Err(ConnectionError::InvalidPort));
}

#[test]
fn accepts_any_port_that_fits() {
    assert_eq!(Connection::from_str("host:h|port:0"), Ok(profile("h", "", 0, None)));
    assert_eq!(Connection::from_str("host:h|port:+22"), Ok(profile("h", "", 22, None)));
    assert_eq!(Connection::from_str("host:h|port:0022"), Ok(profile("h", "", 22, None)));
    assert_eq!(
        Connection::from_str("host:h|port:4294967295"),
        Ok(profile("h", "", u32::MAX, None))
    );
    assert_eq!(Connection::from_str("host:h|port: 80 80 "), Ok(profile("h", "", 8080, None)));
}

#[test]
fn from_chars_agrees_with_from_str() {
    for line in ["username:u|host:h", "port:x", "", " host : h | port : 7 "] {
        assert_eq!(Connection::from_chars(&chars(line)), Connection::from_str(line));
    }
}

#[test]
fn apply_sets_one_field() {
    let start = profile("h", "u", 22, None);
    assert_eq!(start.clone().apply(&chars("host:x")), Ok(profile("x", "u", 22, None)));
    assert_eq!(start.clone().apply(&chars("username:x")), Ok(profile("h", "x", 22, None)));
    assert_eq!(start.clone().apply(&chars("port:9")), Ok(profile("h", "u", 9, None)));
    assert_eq!(start.clone().apply(&chars("private_key:x")), Ok(profile("h", "u", 22, Some("x"))));
    assert_eq!(start.clone().apply(&chars("other:x")), Ok(profile("h", "u", 22, None)));
    assert_eq!(start.apply(&chars("port:x")), Err(ConnectionError::InvalidPort));
}

#[test]
fn labels_are_the_four_words() {
    assert_eq!(Field::Username.label(), "username");
    assert_eq!(Field::Host.label(), "host");
    assert_eq!(Field::Port.label(), "port");
    assert_eq!(Field::PrivateKey.label(), "private_key");
}

#[test]
fn written_line_is_read_back() {
    let samples = [
        profile("h1", "u1", 22, None),
        profile("example.com", "alice", 2222, Some("/home/alice/.ssh/id_ed25519")),
        profile("10.0.0.7", "", 0, None),
        profile("", "root", u32::MAX, Some("")),
        profile("h", "myhostusername", 22, Some("/private_key/x")),
    ];
    for sample in samples {
        assert_eq!(Connection::from_str(&sample.to_string()), Ok(sample.clone()));
        assert_eq!(Connection::from_str(sample.to_line().as_str()), Ok(sample));
    }
}

#[test]
fn written_line_is_not_read_back_where_a_value_holds_a_label() {
    let host_names_user = profile("myusername.example", "bob", 22, None);
    assert_eq!(
        Connection::from_str(&host_names_user.to_string()),
        Ok(profile("", "myusername.example", 22, None))
    );
    let key_names_host = profile("h", "u", 22, Some("/home/u/host_key"));
    assert_eq!(
        Connection::from_str(&key_names_host.to_string()),
        Ok(profile("/home/u/host_key", "u", 22, None))
    );
    let key_names_port = profile("h", "u", 22, Some("/srv/port/id"));
    assert_eq!(
        Connection::from_str(&key_names_port.to_string()),
        Err(ConnectionError::InvalidPort)
    );
    assert_eq!(
        Connection::from_str(&Connection::default().to_string()),
        Err(ConnectionError::MissingRequiredFields)
    );
}
