use ssh_manager::connection::Connection;
use ssh_manager::error::ConnectionError;
use ssh_manager::store::{load_all, read_input, select};

fn profile(host: &str, username: &str, port: u32, private_key: Option<&str>) -> Connection {
    Connection {
        host: host.to_string(),
        username: username.to_string(),
        port,
        private_key: private_key.map(|key| key.to_string()),
    }
}

fn three() -> Vec<Connection> {
    vec![profile("a", "u", 22, None), profile("b", "u", 22, None), profile("c", "u", 22, None)]
}

#[test]
fn loads_every_line_in_order() {
    let contents = "username:u1|host:h1\nhost:h2|port:2222\nusername:u3|private_key:/k\n";
    assert_eq!(
        load_all(contents),
        Ok(vec![
            profile("h1", "u1", 22, None),
            profile("h2", "", 2222, None),
            profile("", "u3", 22, Some("/k")),
        ])
    );
}

#[test]
fn loads_nothing_from_nothing() {
    assert_eq!(load_all(""), Ok(vec![]));
}

#[test]
fn loads_last_line_without_line_feed() {
    assert_eq!(
        load_all("host:a\nhost:b"),
        Ok(vec![profile("a", "", 22, None), profile("b", "", 22, None)])
    );
}

#[test]
fn loads_lines_with_carriage_returns() {
    assert_eq!(
        load_all("host:a\r\nhost:b\r\n"),
        Ok(vec![profile("a", "", 22, None), profile("b", "", 22, None)])
    );
}

#[test]
fn first_bad_line_ends_the_loading() {
    assert_eq!(load_all("host:a\nport:x\n\n"), Err(ConnectionError::InvalidPort));
    assert_eq!(load_all("host:a\n\nport:x\n"), Err(ConnectionError::MissingRequiredFields));
    assert_eq!(load_all("\n"), Err(ConnectionError::MissingRequiredFields));
    assert_eq!(load_all("host:a\n   "), Err(ConnectionError::MissingRequiredFields));
}

#[test]
fn selects_by_index_from_zero() {
    let records = three();
    assert_eq!(select(&records, 0), Ok(&records[0]));
    assert_eq!(select(&records, 1), Ok(&records[1]));
    assert_eq!(select(&records, 2), Ok(&records[2]));
}

#[test]
fn selection_equal_to_the_count_passes_the_check_and_is_out_of_range() {
    let records = three();
    assert_eq!(read_input(&records, "3"), Ok(3));
    assert_eq!(select(&records, 3), Err(ConnectionError::IndexOutOfRange));
}

#[test]
fn selection_beyond_the_count_is_out_of_range() {
    let records = three();
    assert_eq!(read_input(&records, "4"), Err(ConnectionError::IndexOutOfRange));
    assert_eq!(select(&records, 4), Err(ConnectionError::IndexOutOfRange));
    assert_eq!(select(&records, usize::MAX), Err(ConnectionError::IndexOutOfRange));
    assert_eq!(select(&[], 0), Err(ConnectionError::IndexOutOfRange));
    assert_eq!(read_input(&[], "0"), Ok(0));
    assert_eq!(read_input(&[], "1"), Err(ConnectionError::IndexOutOfRange));
}

#[test]
fn answer_is_read_without_the_white_space_around_it() {
    let records = three();
    assert_eq!(read_input(&records, "1\n"), Ok(1));
    assert_eq!(read_input(&records, "  2 \r\n"), Ok(2));
    assert_eq!(read_input(&records, "+0"), Ok(0));
}

#[test]
fn answer_that_is_no_number() {
    let records = three();
    for answer in ["", "\n", "one", "-1", "1 2", "1.0", "99999999999999999999999"] {
        assert_eq!(read_input(&records, answer), Err(ConnectionError::NotANumber), "{:?}", answer);
    }
}

#[test]
fn appended_record_is_the_whole_file_and_is_loaded_back() {
    let record = profile("h1", "u1", 22, None);
    let mut file = String::new();
    file.push_str(&record.to_line());
    assert_eq!(file, "username:u1|host:h1\n");
    assert_eq!(load_all(&file), Ok(vec![record]));
}

#[test]
fn appended_records_are_listed_in_file_order() {
    let first = profile("h1", "u1", 22, None);
    let second = profile("h2", "u2", 2222, Some("/home/u2/.ssh/id"));
    let mut file = String::new();
    file.push_str(&first.to_line());
    file.push_str(&second.to_line());
    let list = load_all(&file).unwrap();
    assert_eq!(list, vec![first, second.clone()]);
    assert_eq!(select(&list, 1), Ok(&second));
}
