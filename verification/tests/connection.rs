use ssh_manager::connection::{Connection, DEFAULT_PORT};
use ssh_manager::error::ConnectionError;

fn profile(host: &str, username: &str, port: u32, private_key: Option<&str>) -> Connection {
    Connection {
        host: host.to_string(),
        username: username.to_string(),
        port,
        private_key: private_key.map(|key| key.to_string()),
    }
}

#[test]
fn default_profile_is_empty_with_port_22() {
    assert_eq!(DEFAULT_PORT, 22);
    assert_eq!(Connection::default(), profile("", "", 22, None));
}

#[test]
fn builders_replace_one_field() {
    let start = profile("h", "u", 7, Some("/k"));
    assert_eq!(start.clone().host("x"), profile("x", "u", 7, Some("/k")));
    assert_eq!(start.clone().username("x"), profile("h", "x", 7, Some("/k")));
    assert_eq!(start.clone().port(0), profile("h", "u", 0, Some("/k")));
    assert_eq!(start.host(""), profile("", "u", 7, Some("/k")));
    assert_eq!(
        Connection::default().host("h1").username("u1").port(2222),
        profile("h1", "u1", 2222, None)
    );
}

#[test]
fn private_key_is_kept_by_its_canonical_path() {
    let start = profile("h", "u", 22, None);
    assert_eq!(
        start.clone().private_key("~/id", Some("/home/u/id".to_string())),
        Ok(profile("h", "u", 22, Some("/home/u/id")))
    );
    assert_eq!(
        profile("h", "u", 22, Some("/old")).private_key("new", Some("/new".to_string())),
        Ok(profile("h", "u", 22, Some("/new")))
    );
    assert_eq!(
        start.private_key("~/id", None),
        Err(ConnectionError::PathNotFound("~/id".to_string()))
    );
}

#[test]
fn connect_command_without_key() {
    assert_eq!(profile("h1", "u1", 22, None).build_connect_command(), "ssh u1@h1 -p 22");
    assert_eq!(
        profile("example.com", "alice", 2222, None).build_connect_command(),
        "ssh alice@example.com -p 2222"
    );
    assert_eq!(Connection::default().build_connect_command(), "ssh @ -p 22");
}

#[test]
fn connect_command_with_key() {
    assert_eq!(
        profile("h1", "u1", 22, Some("/home/u1/.ssh/id")).build_connect_command(),
        "ssh -i /home/u1/.ssh/id u1@h1 -p 22"
    );
    assert_eq!(profile("h", "u", 0, Some("")).build_connect_command(), "ssh -i  u@h -p 0");
}

#[test]
fn connect_command_quotes_nothing() {
    assert_eq!(
        profile("h; rm -rf /", "$(id)", 22, Some("a b")).build_connect_command(),
        "ssh -i a b $(id)@h; rm -rf / -p 22"
    );
}

#[test]
fn answers_give_a_profile() {
    assert_eq!(
        Connection::create_connection_from_questions("h", "u", "", "", None),
        Ok(profile("h", "u", 22, None))
    );
    assert_eq!(
        Connection::create_connection_from_questions("h", "u", "2222", "", None),
        Ok(profile("h", "u", 2222, None))
    );
    assert_eq!(
        Connection::create_connection_from_questions(
            "h",
            "u",
            "2222",
            "id",
            Some("/home/u/id".to_string())
        ),
        Ok(profile("h", "u", 2222, Some("/home/u/id")))
    );
    assert_eq!(
        Connection::create_connection_from_questions("", "", "", "", None),
        Ok(profile("", "", 22, None))
    );
}

#[test]
fn answered_port_that_is_no_number_is_the_default() {
    for port in ["abc", "-1", "4294967296", "22 ", "2 2"] {
        assert_eq!(
            Connection::create_connection_from_questions("h", "u", port, "", None),
            Ok(profile("h", "u", 22, None)),
            "{:?}",
            port
        );
    }
    assert_eq!(
        Connection::create_connection_from_questions("h", "u", "+80", "", None),
        Ok(profile("h", "u", 80, None))
    );
}

#[test]
fn answered_key_without_canonical_path_is_an_error() {
    assert_eq!(
        Connection::create_connection_from_questions("h", "u", "", "missing", None),
        Err(ConnectionError::PathNotFound("missing".to_string()))
    );
}

#[test]
fn key_that_is_left_out_is_no_key() {
    assert_eq!(
        Connection::create_connection_from_questions("h", "u", "", "", Some("/x".to_string())),
        Ok(profile("h", "u", 22, None))
    );
}

#[test]
fn messages_of_the_errors() {
    assert_eq!(
        ConnectionError::MissingRequiredFields.message(),
        "Username & Host are required"
    );
    assert_eq!(ConnectionError::InvalidPort.message(), "Invalid port");
    assert_eq!(
        ConnectionError::PathNotFound("~/id".to_string()).message(),
        "File : ~/id Not Found"
    );
    assert_eq!(ConnectionError::IoError("disk full".to_string()).message(), "disk full");
    assert_eq!(ConnectionError::IndexOutOfRange.message(), "Invalid Option");
    assert_eq!(ConnectionError::NotANumber.message(), "Not a number");
}
