//! What the program is asked to do, by the arguments of its command line.
use vstd::prelude::*;
use vstd::string::*;

verus! {

/// What the program is asked to do.
#[derive(Debug, Clone, PartialEq, Eq)]
pub enum AppState {
    /// Ask for a new connection and store it.
    AddClient,
    /// List the stored connections and open the one that is chosen.
    ConnectClient,
    /// Tell how the program is used.
    GetUsage,
    /// An option that the program does not know.
    NotImplemented(String),
}

/// What `args` ask for, where `args[0]` is the name of the program and
/// what follows are its arguments.
///
/// No argument, or an empty one, asks for a connection; `-a` or `--add`
/// for a new one; `-h` or `--help`, or more than one argument, for the
/// usage; any other single argument is unknown.
pub fn arguments(args: &[String]) -> (state: AppState)
    ensures
        args@.len() > 2 ==> state == AppState::GetUsage,
        args@.len() < 2 ==> state == AppState::ConnectClient,
        args@.len() == 2 ==> {
            let option = args@[1]@;
            if option == "-a"@ || option == "--add"@ {
                state == AppState::AddClient
            } else if option == "-h"@ || option == "--help"@ {
                state == AppState::GetUsage
            } else if option.len() == 0 {
                state == AppState::ConnectClient
            } else {
                state matches AppState::NotImplemented(name) && name@ == option
            }
        },
{
    if args.len() > 2 {
        AppState::GetUsage
    } else if args.len() > 1 {
        let option = &args[1];
        if *option == "-a".to_owned() || *option == "--add".to_owned() {
            AppState::AddClient
        } else if *option == "-h".to_owned() || *option == "--help".to_owned() {
            AppState::GetUsage
        } else if option.as_str().is_empty() {
            AppState::ConnectClient
        } else {
            AppState::NotImplemented(option.clone())
        }
    } else {
        AppState::ConnectClient
    }
}

} // verus!
