//! The line that stores a connection: segments `label:value`, joined by
//! `|`, in which white space does not count.
use vstd::prelude::*;
use vstd::string::*;

use crate::connection::{Connection, ConnectionView, DEFAULT_PORT};
use crate::decimal::{decimal_digits, parse_u32, push_decimal, spec_parse_decimal};
use crate::error::ConnectionError;
use crate::text::{
    chars_of, contains, copy_range, find, spec_contains, spec_find, spec_split,
    spec_strip_whitespace, split, string_of, strip_whitespace, views, LINE_FEED,
};

verus! {

/// The character between two segments of a line.
pub const SEGMENT_SEPARATOR: char = '|';

/// The character between the label of a segment and its value.
pub const VALUE_SEPARATOR: char = ':';

/// The fields that a segment can set, in the order in which their labels
/// are looked for.
#[derive(Debug, Clone, Copy, PartialEq, Eq)]
pub enum Field {
    /// The user to connect as.
    Username,
    /// The host to connect to.
    Host,
    /// The port to connect to.
    Port,
    /// The path of the private key file.
    PrivateKey,
}

impl Field {
    /// The word by which a segment names this field.
    pub open spec fn spec_label(self) -> Seq<char> {
        match self {
            Field::Username => "username"@,
            Field::Host => "host"@,
            Field::Port => "port"@,
            Field::PrivateKey => "private_key"@,
        }
    }

    /// The word by which a segment names this field.
    pub fn label(self) -> (out: &'static str)
        ensures
            out@ == self.spec_label(),
    {
        match self {
            Field::Username => "username",
            Field::Host => "host",
            Field::Port => "port",
            Field::PrivateKey => "private_key",
        }
    }
}

/// The field that `segment` sets: the first, in the order of `Field`, whose
/// label stands anywhere in the segment; none where it holds no label.
pub open spec fn spec_classify(segment: Seq<char>) -> Option<Field> {
    if spec_contains(segment, Field::Username.spec_label()) {
        Some(Field::Username)
    } else if spec_contains(segment, Field::Host.spec_label()) {
        Some(Field::Host)
    } else if spec_contains(segment, Field::Port.spec_label()) {
        Some(Field::Port)
    } else if spec_contains(segment, Field::PrivateKey.spec_label()) {
        Some(Field::PrivateKey)
    } else {
        None
    }
}

/// The value of `segment`: all that follows its first `:`, and nothing
/// where it holds no `:`.
pub open spec fn spec_value(segment: Seq<char>) -> Seq<char> {
    let colon = spec_find(segment, VALUE_SEPARATOR);
    if colon < segment.len() {
        segment.skip(colon + 1)
    } else {
        Seq::empty()
    }
}

/// The profile `profile` after `segment` has set its field, or the error
/// of a port segment whose value is no port.
pub open spec fn apply_segment(profile: ConnectionView, segment: Seq<char>) -> Result<
    ConnectionView,
    ConnectionError,
> {
    let value = spec_value(segment);
    match spec_classify(segment) {
        Some(Field::Username) => Ok(ConnectionView { username: value, ..profile }),
        Some(Field::Host) => Ok(ConnectionView { host: value, ..profile }),
        Some(Field::Port) => match spec_parse_decimal(value, u32::MAX as nat) {
            Some(port) => Ok(ConnectionView { port: port as u32, ..profile }),
            None => Err(ConnectionError::InvalidPort),
        },
        Some(Field::PrivateKey) => Ok(ConnectionView { private_key: Some(value), ..profile }),
        None => Ok(profile),
    }
}

/// The profile `profile` after each of `segments` has set its field, from
/// the first to the last, or the error of the first segment that fails.
pub open spec fn apply_segments(profile: ConnectionView, segments: Seq<Seq<char>>) -> Result<
    ConnectionView,
    ConnectionError,
>
    decreases segments.len(),
{
    if segments.len() == 0 {
        Ok(profile)
    } else {
        match apply_segments(profile, segments.drop_last()) {
            Ok(partial) => apply_segment(partial, segments.last()),
            Err(error) => Err(error),
        }
    }
}

/// The segments of `line`: its pieces between `|`, once its white space is
/// gone.
pub open spec fn segments_of(line: Seq<char>) -> Seq<Seq<char>> {
    spec_split(spec_strip_whitespace(line), SEGMENT_SEPARATOR)
}

/// The profile that the segments of `line` set, starting from the empty
/// one, before it is asked whether the profile names a host or a user.
pub open spec fn assemble(line: Seq<char>) -> Result<ConnectionView, ConnectionError> {
    apply_segments(ConnectionView::empty(), segments_of(line))
}

/// The profile that `line` stores, or why it stores none.
pub open spec fn spec_parse(line: Seq<char>) -> Result<ConnectionView, ConnectionError> {
    match assemble(line) {
        Ok(profile) => if profile.host.len() == 0 && profile.username.len() == 0 {
            Err(ConnectionError::MissingRequiredFields)
        } else {
            Ok(profile)
        },
        Err(error) => Err(error),
    }
}

/// The segment that stores `value` under the label of `field`.
pub open spec fn segment(field: Field, value: Seq<char>) -> Seq<char> {
    field.spec_label().push(VALUE_SEPARATOR) + value
}

/// The segment that stores `value` under the label of `field`, where there
/// is something to store; no segment where there is not.
pub open spec fn optional_segment(present: bool, field: Field, value: Seq<char>) -> Seq<
    Seq<char>,
> {
    if present {
        seq![segment(field, value)]
    } else {
        Seq::empty()
    }
}

/// The segments that store `profile`: one for each field that differs from
/// the empty profile, in the order of `Field`.
pub open spec fn segments(profile: ConnectionView) -> Seq<Seq<char>> {
    optional_segment(profile.username.len() > 0, Field::Username, profile.username)
        + optional_segment(profile.host.len() > 0, Field::Host, profile.host) + optional_segment(
        profile.port != DEFAULT_PORT,
        Field::Port,
        decimal_digits(profile.port as nat),
    ) + optional_segment(
        profile.private_key is Some,
        Field::PrivateKey,
        match profile.private_key {
            Some(key) => key,
            None => Seq::empty(),
        },
    )
}

/// `parts` in one sequence, with `sep` between each two of them.
pub open spec fn join(parts: Seq<Seq<char>>, sep: char) -> Seq<char>
    decreases parts.len(),
{
    if parts.len() == 0 {
        Seq::empty()
    } else if parts.len() == 1 {
        parts[0]
    } else {
        join(parts.drop_last(), sep).push(sep) + parts.last()
    }
}

/// The line that stores `profile`.
pub open spec fn spec_serialize(profile: ConnectionView) -> Seq<char> {
    join(segments(profile), SEGMENT_SEPARATOR)
}

/// The field that `segment` sets: the first, in the order of `Field`, whose
/// label stands anywhere in the segment; none where it holds no label.
pub fn classify(segment: &[char]) -> (field: Option<Field>)
    ensures
        field == spec_classify(segment@),
{
    if contains(segment, chars_of(Field::Username.label()).as_slice()) {
        Some(Field::Username)
    } else if contains(segment, chars_of(Field::Host.label()).as_slice()) {
        Some(Field::Host)
    } else if contains(segment, chars_of(Field::Port.label()).as_slice()) {
        Some(Field::Port)
    } else if contains(segment, chars_of(Field::PrivateKey.label()).as_slice()) {
        Some(Field::PrivateKey)
    } else {
        None
    }
}

/// The value of `segment`: all that follows its first `:`, and nothing
/// where it holds no `:`.
pub fn value(segment: &[char]) -> (out: Vec<char>)
    ensures
        out@ == spec_value(segment@),
{
    let colon = find(segment, VALUE_SEPARATOR);
    if colon < segment.len() {
        copy_range(segment, colon + 1, segment.len())
    } else {
        Vec::new()
    }
}

/// Once a segment has failed, the segments after it change nothing: the
/// error is that of the first segment that fails. And no segment fails but
/// by its port.
pub proof fn lemma_apply_segments_error(
    profile: ConnectionView,
    segments: Seq<Seq<char>>,
    done: int,
)
    requires
        0 <= done <= segments.len(),
        apply_segments(profile, segments.take(done)) is Err,
    ensures
        apply_segments(profile, segments) == apply_segments(profile, segments.take(done)),
        apply_segments(profile, segments) == Err::<ConnectionView, _>(
            ConnectionError::InvalidPort,
        ),
    decreases segments.len(),
{
    if done == segments.len() {
        assert(segments.take(done) == segments);
        if segments.len() > 0 {
            if apply_segments(profile, segments.drop_last()) is Err {
                assert(segments.drop_last().take(done - 1) == segments.drop_last());
                lemma_apply_segments_error(profile, segments.drop_last(), done - 1);
            }
        }
    } else {
        assert(segments.drop_last().take(done) == segments.take(done));
        lemma_apply_segments_error(profile, segments.drop_last(), done);
    }
}

impl Connection {
    /// This profile after `segment` has set its field, or the error of a
    /// port segment whose value is no port.
    pub fn apply(self, segment: &[char]) -> (res: Result<Connection, ConnectionError>)
        ensures
            match apply_segment(self@, segment@) {
                Ok(profile) => res matches Ok(out) && out@ == profile,
                Err(error) => res == Err::<Connection, _>(error),
            },
    {
        let value = value(segment);
        match classify(segment) {
            Some(Field::Username) => Ok(
                Connection { username: string_of(value.as_slice()), ..self },
            ),
            Some(Field::Host) => Ok(Connection { host: string_of(value.as_slice()), ..self }),
            Some(Field::Port) => match parse_u32(value.as_slice()) {
                Some(port) => Ok(Connection { port, ..self }),
                None => Err(ConnectionError::InvalidPort),
            },
            Some(Field::PrivateKey) => Ok(
                Connection { private_key: Some(string_of(value.as_slice())), ..self },
            ),
            None => Ok(self),
        }
    }

    /// The profile that `line` stores.
    ///
    /// White space in `line` does not count, wherever it stands. Each piece
    /// between `|` sets the field whose label it holds, the later piece
    /// over the earlier. A port that is no number is an error, and so is a
    /// line that names neither a host nor a user.
    pub fn from_chars(line: &[char]) -> (res: Result<Connection, ConnectionError>)
        ensures
            match spec_parse(line@) {
                Ok(profile) => res matches Ok(out) && out@ == profile,
                Err(error) => res == Err::<Connection, _>(error),
            },
            res is Ok <==> (assemble(line@) matches Ok(profile) && (profile.host.len() > 0
                || profile.username.len() > 0)),
            res == Err::<Connection, _>(ConnectionError::MissingRequiredFields) <==> (assemble(
                line@,
            ) matches Ok(profile) && profile.host.len() == 0 && profile.username.len() == 0),
            res == Err::<Connection, _>(ConnectionError::InvalidPort) <==> assemble(line@) is Err,
    {
        let cleaned = strip_whitespace(line);
        let segments = split(cleaned.as_slice(), SEGMENT_SEPARATOR);
        let mut profile = Connection::default();
        let mut i: usize = 0;
        assert(views(segments@).take(0) =~= Seq::empty());
        while i < segments.len()
            invariant
                i <= segments.len(),
                views(segments@) == segments_of(line@),
                apply_segments(ConnectionView::empty(), views(segments@).take(i as int)) == Ok::<
                    _,
                    ConnectionError,
                >(profile@),
            decreases segments.len() - i,
        {
            assert(views(segments@).take(i + 1).drop_last() == views(segments@).take(i as int));
            match profile.apply(segments[i].as_slice()) {
                Ok(next) => {
                    profile = next;
                },
                Err(error) => {
                    proof {
                        lemma_apply_segments_error(
                            ConnectionView::empty(),
                            views(segments@),
                            i + 1,
                        );
                    }
                    return Err(error);
                },
            }
            i += 1;
        }
        assert(views(segments@).take(segments@.len() as int) == views(segments@));
        if profile.host.as_str().is_empty() && profile.username.as_str().is_empty() {
            Err(ConnectionError::MissingRequiredFields)
        } else {
            Ok(profile)
        }
    }

    /// The profile that `line` stores.
    ///
    /// White space in `line` does not count, wherever it stands. Each piece
    /// between `|` sets the field whose label it holds, the later piece
    /// over the earlier. A port that is no number is an error, and so is a
    /// line that names neither a host nor a user.
    pub fn from_str(line: &str) -> (res: Result<Connection, ConnectionError>)
        ensures
            match spec_parse(line@) {
                Ok(profile) => res matches Ok(out) && out@ == profile,
                Err(error) => res == Err::<Connection, _>(error),
            },
            res is Ok <==> (assemble(line@) matches Ok(profile) && (profile.host.len() > 0
                || profile.username.len() > 0)),
            res == Err::<Connection, _>(ConnectionError::MissingRequiredFields) <==> (assemble(
                line@,
            ) matches Ok(profile) && profile.host.len() == 0 && profile.username.len() == 0),
            res == Err::<Connection, _>(ConnectionError::InvalidPort) <==> assemble(line@) is Err,
    {
        Connection::from_chars(chars_of(line).as_slice())
    }
}

/// Joining one part more puts the separator before it, unless it is the
/// first.
proof fn lemma_join_push(parts: Seq<Seq<char>>, part: Seq<char>, sep: char)
    ensures
        join(parts.push(part), sep) == if parts.len() == 0 {
            part
        } else {
            join(parts, sep).push(sep) + part
        },
{
    assert(parts.push(part).drop_last() == parts);
}

/// Appends to `out` the segment that stores `value` under the label of
/// `field`, after a separator unless the segment is the first of its line.
fn push_segment(out: &mut String, first: bool, field: Field, value: &str)
    ensures
        final(out)@ == if first {
            old(out)@ + segment(field, value@)
        } else {
            old(out)@.push(SEGMENT_SEPARATOR) + segment(field, value@)
        },
{
    if !first {
        out.push(SEGMENT_SEPARATOR);
    }
    out.append(field.label());
    out.push(VALUE_SEPARATOR);
    out.append(value);
    assert(out@ =~= if first {
        old(out)@ + segment(field, value@)
    } else {
        old(out)@.push(SEGMENT_SEPARATOR) + segment(field, value@)
    });
}

impl Connection {
    /// The line that stores this profile, without a line ending: a segment
    /// for the user and one for the host where they are not empty, one for
    /// the port where it is not the default, one for the key where there
    /// is one, in this order and with `|` between them. No value is
    /// escaped.
    pub fn to_string(&self) -> (out: String)
        ensures
            out@ == spec_serialize(self@),
    {
        let mut out = String::new();
        let mut first = true;
        let ghost mut parts: Seq<Seq<char>> = Seq::empty();
        if !self.username.as_str().is_empty() {
            push_segment(&mut out, first, Field::Username, self.username.as_str());
            first = false;
            proof {
                lemma_join_push(parts, segment(Field::Username, self.username@), SEGMENT_SEPARATOR);
                parts = parts.push(segment(Field::Username, self.username@));
            }
        }
        assert(out@ == join(parts, SEGMENT_SEPARATOR) && first == (parts.len() == 0));
        if !self.host.as_str().is_empty() {
            push_segment(&mut out, first, Field::Host, self.host.as_str());
            first = false;
            proof {
                lemma_join_push(parts, segment(Field::Host, self.host@), SEGMENT_SEPARATOR);
                parts = parts.push(segment(Field::Host, self.host@));
            }
        }
        assert(out@ == join(parts, SEGMENT_SEPARATOR) && first == (parts.len() == 0));
        if self.port != DEFAULT_PORT {
            let mut digits = String::new();
            push_decimal(&mut digits, self.port as u64);
            push_segment(&mut out, first, Field::Port, digits.as_str());
            first = false;
            proof {
                let port = segment(Field::Port, decimal_digits(self.port as nat));
                lemma_join_push(parts, port, SEGMENT_SEPARATOR);
                parts = parts.push(port);
            }
        }
        assert(out@ == join(parts, SEGMENT_SEPARATOR) && first == (parts.len() == 0));
        if let Some(key) = &self.private_key {
            push_segment(&mut out, first, Field::PrivateKey, key.as_str());
            proof {
                lemma_join_push(parts, segment(Field::PrivateKey, key@), SEGMENT_SEPARATOR);
                parts = parts.push(segment(Field::PrivateKey, key@));
            }
        }
        assert(out@ == join(parts, SEGMENT_SEPARATOR));
        assert(parts =~= segments(self@));
        out
    }

    /// The line that stores this profile, with the line feed that ends it.
    pub fn to_line(&self) -> (out: String)
        ensures
            out@ == spec_serialize(self@).push(LINE_FEED),
    {
        let mut out = self.to_string();
        out.push(LINE_FEED);
        out
    }
}

} // verus!
