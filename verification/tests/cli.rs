use ssh_manager::cli::{arguments, AppState};

fn args(list: &[&str]) -> Vec<String> {
    list.iter().map(|arg| arg.to_string()).collect()
}

#[test]
fn no_argument_asks_for_a_connection() {
    assert_eq!(arguments(&args(&["ssh-manager"])), AppState::ConnectClient);
    assert_eq!(arguments(&args(&[])), AppState::ConnectClient);
    assert_eq!(arguments(&args(&["ssh-manager", ""])), AppState::ConnectClient);
}

#[test]
fn add_flags_ask_for_a_new_connection() {
    assert_eq!(arguments(&args(&["ssh-manager", "-a"])), AppState::AddClient);
    assert_eq!(arguments(&args(&["ssh-manager", "--add"])), AppState::AddClient);
}

#[test]
fn help_flags_ask_for_the_usage() {
    assert_eq!(arguments(&args(&["ssh-manager", "-h"])), AppState::GetUsage);
    assert_eq!(arguments(&args(&["ssh-manager", "--help"])), AppState::GetUsage);
}

#[test]
fn more_than_one_argument_asks_for_the_usage() {
    assert_eq!(arguments(&args(&["ssh-manager", "-a", "-a"])), AppState::GetUsage);
    assert_eq!(arguments(&args(&["ssh-manager", "x", "y", "z"])), AppState::GetUsage);
}

#[test]
fn other_argument_is_unknown() {
    assert_eq!(
        arguments(&args(&["ssh-manager", "--list"])),
        AppState::NotImplemented("--list".to_string())
    );
    assert_eq!(
        arguments(&args(&["ssh-manager", "-A"])),
        AppState::NotImplemented("-A".to_string())
    );
    assert_eq!(
        arguments(&args(&["ssh-manager", "add"])),
        AppState::NotImplemented("add".to_string())
    );
}
