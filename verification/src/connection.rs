//! A connection profile: where to connect, as whom, and with which key.
use vstd::prelude::*;
use vstd::string::*;

use crate::decimal::{decimal_digits, parse_u32, push_decimal, spec_parse_decimal};
use crate::error::ConnectionError;
use crate::text::chars_of;

verus! {

/// One connection profile.
#[derive(Debug, Clone, PartialEq, Eq)]
pub struct Connection {
    /// The host to connect to; empty where none is given.
    pub host: String,
    /// The user to connect as; empty where none is given.
    pub username: String,
    /// The port to connect to.
    pub port: u32,
    /// The path of the private key file, where one is used.
    pub private_key: Option<String>,
}

/// A connection profile as plain values.
pub struct ConnectionView {
    /// The characters of the host.
    pub host: Seq<char>,
    /// The characters of the user.
    pub username: Seq<char>,
    /// The port.
    pub port: u32,
    /// The characters of the path of the private key file, where one is
    /// used.
    pub private_key: Option<Seq<char>>,
}

/// The port of a profile that names none.
pub const DEFAULT_PORT: u32 = 22;

impl ConnectionView {
    /// The profile with no host, no user, the default port and no key.
    pub open spec fn empty() -> ConnectionView {
        ConnectionView {
            host: Seq::empty(),
            username: Seq::empty(),
            port: DEFAULT_PORT,
            private_key: None,
        }
    }

    /// The command line that opens this connection.
    pub open spec fn connect_command(self) -> Seq<char> {
        match self.private_key {
            Some(key) => "ssh -i "@ + key + " "@ + self.username + "@"@ + self.host + " -p "@
                + decimal_digits(self.port as nat),
            None => "ssh "@ + self.username + "@"@ + self.host + " -p "@ + decimal_digits(
                self.port as nat,
            ),
        }
    }
}

impl View for Connection {
    type V = ConnectionView;

    open spec fn view(&self) -> ConnectionView {
        ConnectionView {
            host: self.host@,
            username: self.username@,
            port: self.port,
            private_key: match self.private_key {
                Some(key) => Some(key@),
                None => None,
            },
        }
    }
}

impl Default for Connection {
    /// The profile with no host, no user, the default port and no key.
    fn default() -> (out: Connection)
        ensures
            out@ == ConnectionView::empty(),
    {
        Connection {
            host: String::new(),
            username: String::new(),
            port: DEFAULT_PORT,
            private_key: None,
        }
    }
}

impl Connection {
    /// This profile with `host` as its host.
    pub fn host(self, host: &str) -> (out: Connection)
        ensures
            out@ == (ConnectionView { host: host@, ..self@ }),
    {
        Connection { host: host.to_owned(), ..self }
    }

    /// This profile with `username` as its user.
    pub fn username(self, username: &str) -> (out: Connection)
        ensures
            out@ == (ConnectionView { username: username@, ..self@ }),
    {
        Connection { username: username.to_owned(), ..self }
    }

    /// This profile with `port` as its port.
    pub fn port(self, port: u32) -> (out: Connection)
        ensures
            out@ == (ConnectionView { port: port, ..self@ }),
    {
        Connection { port, ..self }
    }

    /// This profile with the key file `private_key`, which is kept by its
    /// canonical path `canonical`; `canonical` is `None` where the file
    /// system gave the path no canonical form, and that is an error.
    pub fn private_key(self, private_key: &str, canonical: Option<String>) -> (res: Result<
        Connection,
        ConnectionError,
    >)
        ensures
            match canonical {
                Some(path) => res matches Ok(out) && out@ == (ConnectionView {
                    private_key: Some(path@),
                    ..self@
                }),
                None => res matches Err(ConnectionError::PathNotFound(asked)) && asked@
                    == private_key@,
            },
    {
        match canonical {
            Some(path) => Ok(Connection { private_key: Some(path), ..self }),
            None => Err(ConnectionError::PathNotFound(private_key.to_owned())),
        }
    }

    /// The command line that opens this connection. No field is quoted or
    /// escaped: each stands in the command as it is.
    pub fn build_connect_command(&self) -> (out: String)
        ensures
            out@ == self@.connect_command(),
    {
        let mut out = "ssh ".to_owned();
        if let Some(key) = &self.private_key {
            out.append("-i ");
            out.append(key.as_str());
            out.append(" ");
            proof {
                reveal_strlit("ssh ");
                reveal_strlit("-i ");
                reveal_strlit("ssh -i ");
                assert("ssh "@ + "-i "@ =~= "ssh -i "@);
            }
        }
        out.append(self.username.as_str());
        out.append("@");
        out.append(self.host.as_str());
        out.append(" -p ");
        push_decimal(&mut out, self.port as u64);
        assert(out@ =~= self@.connect_command());
        out
    }

    /// The profile that the answers to the four questions give: the host,
    /// the user, the port and the path of the key file, each as it was
    /// answered, and the canonical form `canonical` of that path, which is
    /// `None` where the file system gave it none.
    ///
    /// A port that is left out, or that is no number, is the default port.
    /// A key that is left out is no key, whatever `canonical` holds; a key
    /// that is given and has no canonical form is an error.
    pub fn create_connection_from_questions(
        host: &str,
        username: &str,
        port: &str,
        private_key: &str,
        canonical: Option<String>,
    ) -> (res: Result<Connection, ConnectionError>)
        ensures
            private_key@.len() > 0 && canonical is None ==> (res matches Err(
                ConnectionError::PathNotFound(asked),
            ) && asked@ == private_key@),
            private_key@.len() == 0 || canonical is Some ==> (res matches Ok(out) && out@ == (
            ConnectionView {
                host: host@,
                username: username@,
                port: answered_port(port@),
                private_key: if private_key@.len() == 0 {
                    None
                } else {
                    Some(canonical->0@)
                },
            })),
    {
        let mut profile = Connection::default().host(host).username(username);
        if !port.is_empty() {
            let answered = match parse_u32(chars_of(port).as_slice()) {
                Some(port) => port,
                None => DEFAULT_PORT,
            };
            profile = profile.port(answered);
        }
        if !private_key.is_empty() {
            profile.private_key(private_key, canonical)
        } else {
            Ok(profile)
        }
    }
}

/// The port that the answer `port` gives: the number that it writes, and
/// the default port where it writes none that fits.
pub open spec fn answered_port(port: Seq<char>) -> u32 {
    match spec_parse_decimal(port, u32::MAX as nat) {
        Some(number) => number as u32,
        None => DEFAULT_PORT,
    }
}

} // verus!
