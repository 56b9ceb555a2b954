//! What holds of the line that is written for a profile, and between it
//! and the profile that is read from a line.
use vstd::prelude::*;

use crate::codec::{
    apply_segment, apply_segments, assemble, join, optional_segment, segment, segments,
    segments_of, spec_classify, spec_parse, spec_serialize, spec_value, Field, SEGMENT_SEPARATOR,
    VALUE_SEPARATOR,
};
use crate::connection::{ConnectionView, DEFAULT_PORT};
use crate::decimal::{
    all_digits, decimal_digits, is_digit, lemma_decimal_digits, lemma_parse_decimal_digits,
};
use crate::error::ConnectionError;
use crate::text::{
    free_of, is_whitespace, lemma_contains_after_prefix, lemma_contains_needs_first,
    lemma_find_is, lemma_free_of_concat, lemma_no_whitespace_concat, lemma_occurs_at_chars,
    lemma_split_none, lemma_split_push_part, lemma_strip_whitespace_none, no_whitespace,
    occurs_at, spec_contains, spec_split,
};

verus! {

/// The four labels, character by character.
pub proof fn lemma_labels()
    ensures
        Field::Username.spec_label() == seq!['u', 's', 'e', 'r', 'n', 'a', 'm', 'e'],
        Field::Host.spec_label() == seq!['h', 'o', 's', 't'],
        Field::Port.spec_label() == seq!['p', 'o', 'r', 't'],
        Field::PrivateKey.spec_label() == seq![
            'p', 'r', 'i', 'v', 'a', 't', 'e', '_', 'k', 'e', 'y',
        ],
{
    reveal_strlit("username");
    reveal_strlit("host");
    reveal_strlit("port");
    reveal_strlit("private_key");
    assert(Field::Username.spec_label() =~= seq!['u', 's', 'e', 'r', 'n', 'a', 'm', 'e']);
    assert(Field::Host.spec_label() =~= seq!['h', 'o', 's', 't']);
    assert(Field::Port.spec_label() =~= seq!['p', 'o', 'r', 't']);
    assert(Field::PrivateKey.spec_label() =~= seq![
        'p', 'r', 'i', 'v', 'a', 't', 'e', '_', 'k', 'e', 'y',
    ]);
}

/// Whether `s` holds no white space, no `|` and no `:`.
pub open spec fn is_plain(s: Seq<char>) -> bool {
    no_whitespace(s) && free_of(s, SEGMENT_SEPARATOR) && free_of(s, VALUE_SEPARATOR)
}

/// Whether the host, the user and the key of `profile` are plain.
pub open spec fn has_plain_fields(profile: ConnectionView) -> bool {
    &&& is_plain(profile.host)
    &&& is_plain(profile.username)
    &&& profile.private_key matches Some(key) ==> is_plain(key)
}

/// The label of a field, with the colon that follows it.
pub open spec fn label_prefix(field: Field) -> Seq<char> {
    field.spec_label().push(VALUE_SEPARATOR)
}

/// The four labels with their colons, character by character.
proof fn lemma_label_prefixes()
    ensures
        label_prefix(Field::Username) == seq!['u', 's', 'e', 'r', 'n', 'a', 'm', 'e', ':'],
        label_prefix(Field::Host) == seq!['h', 'o', 's', 't', ':'],
        label_prefix(Field::Port) == seq!['p', 'o', 'r', 't', ':'],
        label_prefix(Field::PrivateKey) == seq![
            'p', 'r', 'i', 'v', 'a', 't', 'e', '_', 'k', 'e', 'y', ':',
        ],
{
    lemma_labels();
    assert(label_prefix(Field::Username) =~= seq!['u', 's', 'e', 'r', 'n', 'a', 'm', 'e', ':']);
    assert(label_prefix(Field::Host) =~= seq!['h', 'o', 's', 't', ':']);
    assert(label_prefix(Field::Port) =~= seq!['p', 'o', 'r', 't', ':']);
    assert(label_prefix(Field::PrivateKey) =~= seq![
        'p', 'r', 'i', 'v', 'a', 't', 'e', '_', 'k', 'e', 'y', ':',
    ]);
}

/// No label, with its colon, holds white space or `|`.
proof fn lemma_label_prefix_chars(field: Field)
    ensures
        no_whitespace(label_prefix(field)),
        free_of(label_prefix(field), SEGMENT_SEPARATOR),
{
    lemma_label_prefixes();
}

/// A segment is as free of white space and of `|` as its value.
proof fn lemma_segment_chars(field: Field, value: Seq<char>)
    ensures
        no_whitespace(value) ==> no_whitespace(segment(field, value)),
        free_of(value, SEGMENT_SEPARATOR) ==> free_of(segment(field, value), SEGMENT_SEPARATOR),
{
    lemma_label_prefix_chars(field);
    if no_whitespace(value) {
        lemma_no_whitespace_concat(label_prefix(field), value);
    }
    if free_of(value, SEGMENT_SEPARATOR) {
        lemma_free_of_concat(label_prefix(field), value, SEGMENT_SEPARATOR);
    }
}

/// The value of a segment is what it was made with.
proof fn lemma_segment_value(field: Field, value: Seq<char>)
    ensures
        spec_value(segment(field, value)) == value,
{
    lemma_labels();
    let label = field.spec_label();
    let whole = segment(field, value);
    assert(whole[label.len() as int] == VALUE_SEPARATOR);
    assert forall|j: int| 0 <= j < label.len() implies whole[j] != VALUE_SEPARATOR by {
        assert(whole[j] == label[j]);
    }
    lemma_find_is(whole, VALUE_SEPARATOR, label.len() as int);
    assert(whole.skip(label.len() as int + 1) == value);
}

/// A segment holds the label that it was made with, at its start.
proof fn lemma_segment_holds_label(field: Field, value: Seq<char>)
    ensures
        spec_contains(segment(field, value), field.spec_label()),
{
    let label = field.spec_label();
    let whole = segment(field, value);
    assert(whole.subrange(0, 0int + label.len()) == label);
    assert(occurs_at(whole, label, 0));
}

/// A segment that was made for the user sets the user.
proof fn lemma_classify_username_segment(value: Seq<char>)
    ensures
        spec_classify(segment(Field::Username, value)) == Some(Field::Username),
{
    lemma_segment_holds_label(Field::Username, value);
}

/// A segment that was made for the host sets the host, unless the host
/// holds the label of the user: then it sets the user.
proof fn lemma_classify_host_segment(value: Seq<char>)
    ensures
        spec_classify(segment(Field::Host, value)) == if spec_contains(
            value,
            Field::Username.spec_label(),
        ) {
            Some(Field::Username)
        } else {
            Some(Field::Host)
        },
{
    lemma_labels();
    lemma_segment_holds_label(Field::Host, value);
    lemma_label_prefixes();
    lemma_contains_after_unlike_prefix(
        label_prefix(Field::Host),
        value,
        Field::Username.spec_label(),
    );
}

/// Digits hold neither `u` nor `h`, no white space and no `|`.
proof fn lemma_digits_chars(digits: Seq<char>)
    requires
        all_digits(digits),
    ensures
        free_of(digits, 'u'),
        free_of(digits, 'h'),
        free_of(digits, SEGMENT_SEPARATOR),
        no_whitespace(digits),
{
    assert forall|i: int| 0 <= i < digits.len() implies {
        let c = #[trigger] digits[i];
        c != 'u' && c != 'h' && c != SEGMENT_SEPARATOR && !is_whitespace(c)
    } by {
        assert(is_digit(digits[i]));
    }
}

/// The label of the port, with its colon, holds neither `u` nor `h`.
proof fn lemma_port_prefix_chars()
    ensures
        free_of(label_prefix(Field::Port), 'u'),
        free_of(label_prefix(Field::Port), 'h'),
{
    lemma_label_prefixes();
}

/// A segment that was made for the port sets the port.
proof fn lemma_classify_port_segment(port: nat)
    ensures
        spec_classify(segment(Field::Port, decimal_digits(port))) == Some(Field::Port),
{
    let digits = decimal_digits(port);
    let whole = segment(Field::Port, digits);
    lemma_segment_holds_label(Field::Port, digits);
    assert(!spec_contains(whole, Field::Username.spec_label()) && !spec_contains(
        whole,
        Field::Host.spec_label(),
    )) by {
        lemma_decimal_digits(port);
        lemma_digits_chars(digits);
        lemma_port_prefix_chars();
        lemma_free_of_concat(label_prefix(Field::Port), digits, 'u');
        lemma_free_of_concat(label_prefix(Field::Port), digits, 'h');
        lemma_labels();
        lemma_contains_needs_first(whole, Field::Username.spec_label());
        lemma_contains_needs_first(whole, Field::Host.spec_label());
    }
}

/// Where no character of `prefix` is the first of `pat`, or the one that is
/// is not followed in `prefix` by the second of `pat`, `pat` stands in
/// `prefix + s` just when it stands in `s`.
proof fn lemma_contains_after_unlike_prefix(prefix: Seq<char>, s: Seq<char>, pat: Seq<char>)
    requires
        pat.len() >= 2,
        forall|i: int|
            0 <= i < prefix.len() ==> #[trigger] prefix[i] != pat[0] || (i + 1 < prefix.len()
                && prefix[i + 1] != pat[1]),
    ensures
        spec_contains(prefix + s, pat) == spec_contains(s, pat),
{
    let whole = prefix + s;
    assert forall|i: int| 0 <= i < prefix.len() implies !occurs_at(whole, pat, i) by {
        if occurs_at(whole, pat, i) {
            lemma_occurs_at_chars(whole, pat, i, 0);
            lemma_occurs_at_chars(whole, pat, i, 1);
            assert(whole[i] == prefix[i]);
            if i + 1 < prefix.len() {
                assert(whole[i + 1] == prefix[i + 1]);
            }
        }
    }
    lemma_contains_after_prefix(prefix, s, pat);
}

/// The label of the key, with its colon, hides no label of another field:
/// the segment of a key holds such a label just when the key does.
proof fn lemma_key_segment_holds(value: Seq<char>, field: Field)
    requires
        field != Field::PrivateKey,
    ensures
        spec_contains(segment(Field::PrivateKey, value), field.spec_label()) == spec_contains(
            value,
            field.spec_label(),
        ),
{
    lemma_labels();
    lemma_label_prefixes();
    lemma_contains_after_unlike_prefix(label_prefix(Field::PrivateKey), value, field.spec_label());
}

/// A segment that was made for the key sets the key, unless the key holds
/// the label of the user, of the host or of the port: then it sets the
/// first of these.
proof fn lemma_classify_key_segment(value: Seq<char>)
    ensures
        spec_classify(segment(Field::PrivateKey, value)) == if spec_contains(
            value,
            Field::Username.spec_label(),
        ) {
            Some(Field::Username)
        } else if spec_contains(value, Field::Host.spec_label()) {
            Some(Field::Host)
        } else if spec_contains(value, Field::Port.spec_label()) {
            Some(Field::Port)
        } else {
            Some(Field::PrivateKey)
        },
{
    lemma_segment_holds_label(Field::PrivateKey, value);
    lemma_key_segment_holds(value, Field::Username);
    lemma_key_segment_holds(value, Field::Host);
    lemma_key_segment_holds(value, Field::Port);
}

/// One part or more, none of which holds the separator, are the pieces of
/// what they are joined to.
pub proof fn lemma_split_join(parts: Seq<Seq<char>>, sep: char)
    requires
        parts.len() > 0,
        forall|i: int| 0 <= i < parts.len() ==> free_of(#[trigger] parts[i], sep),
    ensures
        spec_split(join(parts, sep), sep) == parts,
    decreases parts.len(),
{
    if parts.len() == 1 {
        lemma_split_none(parts[0], sep);
        assert(seq![parts[0]] == parts);
    } else {
        let before = parts.drop_last();
        assert forall|i: int| 0 <= i < before.len() implies free_of(#[trigger] before[i], sep) by {
            assert(before[i] == parts[i]);
        }
        lemma_split_join(before, sep);
        lemma_split_push_part(join(before, sep), parts.last(), sep);
        assert(before.push(parts.last()) == parts);
    }
}

/// Parts without white space, joined by a separator that is none, hold no
/// white space.
proof fn lemma_join_no_whitespace(parts: Seq<Seq<char>>, sep: char)
    requires
        !is_whitespace(sep),
        forall|i: int| 0 <= i < parts.len() ==> no_whitespace(#[trigger] parts[i]),
    ensures
        no_whitespace(join(parts, sep)),
    decreases parts.len(),
{
    if parts.len() >= 2 {
        let before = parts.drop_last();
        assert forall|i: int| 0 <= i < before.len() implies no_whitespace(
            #[trigger] before[i],
        ) by {
            assert(before[i] == parts[i]);
        }
        lemma_join_no_whitespace(before, sep);
        let head = join(before, sep).push(sep);
        let whole = head + parts.last();
        assert(no_whitespace(parts[parts.len() - 1]));
        assert forall|j: int| 0 <= j < whole.len() implies !is_whitespace(#[trigger] whole[j]) by {
            if j < head.len() - 1 {
                assert(whole[j] == join(before, sep)[j]);
            } else if j >= head.len() {
                assert(whole[j] == parts.last()[j - head.len()]);
            }
        }
    } else if parts.len() == 1 {
        assert(no_whitespace(parts[0]));
    }
}

/// Applying segments one list after another is applying both lists in one.
proof fn lemma_apply_segments_concat(
    profile: ConnectionView,
    first: Seq<Seq<char>>,
    second: Seq<Seq<char>>,
)
    ensures
        apply_segments(profile, first + second) == match apply_segments(profile, first) {
            Ok(partial) => apply_segments(partial, second),
            Err(error) => Err(error),
        },
    decreases second.len(),
{
    if second.len() == 0 {
        assert(first + second == first);
    } else {
        lemma_apply_segments_concat(profile, first, second.drop_last());
        assert((first + second).drop_last() == first + second.drop_last());
        assert((first + second).last() == second.last());
    }
}

/// Applying the segment of a field, where there is one, is applying that
/// segment, and changes nothing where there is none.
proof fn lemma_apply_optional_segment(
    profile: ConnectionView,
    present: bool,
    field: Field,
    value: Seq<char>,
)
    ensures
        apply_segments(profile, optional_segment(present, field, value)) == if present {
            apply_segment(profile, segment(field, value))
        } else {
            Ok(profile)
        },
{
    assert(seq![segment(field, value)].drop_last() == Seq::<Seq<char>>::empty());
    assert(apply_segments(profile, Seq::<Seq<char>>::empty()) == Ok::<_, ConnectionError>(
        profile,
    ));
}

/// What the segment that was made for the user does to a profile.
proof fn lemma_apply_username_segment(profile: ConnectionView, value: Seq<char>)
    ensures
        apply_segment(profile, segment(Field::Username, value)) == Ok::<_, ConnectionError>(
            ConnectionView { username: value, ..profile },
        ),
{
    lemma_classify_username_segment(value);
    lemma_segment_value(Field::Username, value);
}

/// What the segment that was made for the host does to a profile.
proof fn lemma_apply_host_segment(profile: ConnectionView, value: Seq<char>)
    ensures
        apply_segment(profile, segment(Field::Host, value)) == Ok::<_, ConnectionError>(
            if spec_contains(value, Field::Username.spec_label()) {
                ConnectionView { username: value, ..profile }
            } else {
                ConnectionView { host: value, ..profile }
            },
        ),
{
    lemma_classify_host_segment(value);
    lemma_segment_value(Field::Host, value);
}

/// What the segment that was made for the port does to a profile.
proof fn lemma_apply_port_segment(profile: ConnectionView, port: u32)
    ensures
        apply_segment(profile, segment(Field::Port, decimal_digits(port as nat))) == Ok::<
            _,
            ConnectionError,
        >(ConnectionView { port: port, ..profile }),
{
    lemma_classify_port_segment(port as nat);
    lemma_segment_value(Field::Port, decimal_digits(port as nat));
    lemma_parse_decimal_digits(port as nat, u32::MAX as nat);
}

/// Whether `value` holds the label of the user, of the host or of the
/// port.
pub open spec fn holds_other_label(value: Seq<char>) -> bool {
    ||| spec_contains(value, Field::Username.spec_label())
    ||| spec_contains(value, Field::Host.spec_label())
    ||| spec_contains(value, Field::Port.spec_label())
}

/// What the segment that was made for the key does to a profile: it sets
/// the key, unless the key holds the label of another field; then it
/// fails or leaves the key of the profile as it is.
proof fn lemma_apply_key_segment(profile: ConnectionView, value: Seq<char>)
    ensures
        !holds_other_label(value) ==> apply_segment(profile, segment(Field::PrivateKey, value))
            == Ok::<_, ConnectionError>(ConnectionView { private_key: Some(value), ..profile }),
        holds_other_label(value) ==> match apply_segment(
            profile,
            segment(Field::PrivateKey, value),
        ) {
            Ok(next) => next.private_key == profile.private_key,
            Err(_) => true,
        },
{
    lemma_classify_key_segment(value);
    lemma_segment_value(Field::PrivateKey, value);
}

/// Whether the line that is written for `profile` is read as `profile`,
/// where its fields are plain: it names a host or a user; the host does
/// not hold the label of the user; and the key holds the label neither of
/// the user, nor of the host, nor of the port.
pub open spec fn reads_back(profile: ConnectionView) -> bool {
    &&& profile.host.len() > 0 || profile.username.len() > 0
    &&& !spec_contains(profile.host, Field::Username.spec_label())
    &&& profile.private_key matches Some(key) ==> !holds_other_label(key)
}

/// The segments that are written for a profile with plain fields hold no
/// white space and no `|`.
proof fn lemma_segments_chars(profile: ConnectionView)
    requires
        has_plain_fields(profile),
    ensures
        forall|i: int|
            0 <= i < segments(profile).len() ==> no_whitespace(#[trigger] segments(profile)[i])
                && free_of(segments(profile)[i], SEGMENT_SEPARATOR),
{
    let parts = segments(profile);
    assert forall|i: int| 0 <= i < parts.len() implies no_whitespace(#[trigger] parts[i])
        && free_of(parts[i], SEGMENT_SEPARATOR) by {
        lemma_segment_chars(Field::Username, profile.username);
        lemma_segment_chars(Field::Host, profile.host);
        lemma_decimal_digits(profile.port as nat);
        lemma_digits_chars(decimal_digits(profile.port as nat));
        lemma_segment_chars(Field::Port, decimal_digits(profile.port as nat));
        if let Some(key) = profile.private_key {
            lemma_segment_chars(Field::PrivateKey, key);
        }
    }
}

/// The line that is written for a profile with plain fields holds no white
/// space.
pub proof fn lemma_serialized_no_whitespace(profile: ConnectionView)
    requires
        has_plain_fields(profile),
    ensures
        no_whitespace(spec_serialize(profile)),
{
    lemma_segments_chars(profile);
    lemma_join_no_whitespace(segments(profile), SEGMENT_SEPARATOR);
}

/// The segments that are written for a profile with plain fields are the
/// segments of the line that is written for it, unless there is none.
proof fn lemma_segments_of_serialized(profile: ConnectionView)
    requires
        has_plain_fields(profile),
        segments(profile).len() > 0,
    ensures
        segments_of(spec_serialize(profile)) == segments(profile),
{
    lemma_segments_chars(profile);
    lemma_serialized_no_whitespace(profile);
    lemma_strip_whitespace_none(spec_serialize(profile));
    lemma_split_join(segments(profile), SEGMENT_SEPARATOR);
}

/// What the segments that are written for `profile` set before the segment
/// of its key, if it has one, is applied.
pub open spec fn read_before_key(profile: ConnectionView) -> ConnectionView {
    if spec_contains(profile.host, Field::Username.spec_label()) {
        ConnectionView {
            host: Seq::empty(),
            username: profile.host,
            port: profile.port,
            private_key: None,
        }
    } else {
        ConnectionView {
            host: profile.host,
            username: profile.username,
            port: profile.port,
            private_key: None,
        }
    }
}

/// The segments that are written for the user, the host and the port of a
/// profile set `read_before_key` of it.
proof fn lemma_apply_before_key(profile: ConnectionView)
    ensures
        apply_segments(
            ConnectionView::empty(),
            optional_segment(profile.username.len() > 0, Field::Username, profile.username)
                + optional_segment(profile.host.len() > 0, Field::Host, profile.host)
                + optional_segment(
                profile.port != DEFAULT_PORT,
                Field::Port,
                decimal_digits(profile.port as nat),
            ),
        ) == Ok::<_, ConnectionError>(read_before_key(profile)),
{
    let empty = ConnectionView::empty();
    let username = optional_segment(profile.username.len() > 0, Field::Username, profile.username);
    let host = optional_segment(profile.host.len() > 0, Field::Host, profile.host);
    let port = optional_segment(
        profile.port != DEFAULT_PORT,
        Field::Port,
        decimal_digits(profile.port as nat),
    );
    let with_username = ConnectionView { username: profile.username, ..empty };
    assert(apply_segments(empty, username) == Ok::<_, ConnectionError>(with_username)) by {
        lemma_apply_optional_segment(
            empty,
            profile.username.len() > 0,
            Field::Username,
            profile.username,
        );
        lemma_apply_username_segment(empty, profile.username);
        if profile.username.len() == 0 {
            assert(profile.username == Seq::<char>::empty());
        }
    }
    let with_host = ConnectionView { port: DEFAULT_PORT, ..read_before_key(profile) };
    assert(apply_segments(with_username, host) == Ok::<_, ConnectionError>(with_host)) by {
        lemma_labels();
        lemma_apply_optional_segment(
            with_username,
            profile.host.len() > 0,
            Field::Host,
            profile.host,
        );
        lemma_apply_host_segment(with_username, profile.host);
        if profile.host.len() == 0 {
            assert(profile.host == Seq::<char>::empty());
            assert(forall|i: int| !occurs_at(profile.host, Field::Username.spec_label(), i));
        }
    }
    assert(apply_segments(with_host, port) == Ok::<_, ConnectionError>(
        read_before_key(profile),
    )) by {
        lemma_apply_optional_segment(
            with_host,
            profile.port != DEFAULT_PORT,
            Field::Port,
            decimal_digits(profile.port as nat),
        );
        lemma_apply_port_segment(with_host, profile.port);
    }
    lemma_apply_segments_concat(empty, username, host);
    lemma_apply_segments_concat(empty, username + host, port);
}

/// What the segments that are written for `profile` set: what those before
/// the key set, and then what the segment of the key does, if there is one.
proof fn lemma_apply_written(profile: ConnectionView)
    ensures
        apply_segments(ConnectionView::empty(), segments(profile)) == match profile.private_key {
            Some(key) => apply_segment(
                read_before_key(profile),
                segment(Field::PrivateKey, key),
            ),
            None => Ok(read_before_key(profile)),
        },
{
    let key = match profile.private_key {
        Some(key) => key,
        None => Seq::empty(),
    };
    let before = optional_segment(profile.username.len() > 0, Field::Username, profile.username)
        + optional_segment(profile.host.len() > 0, Field::Host, profile.host) + optional_segment(
        profile.port != DEFAULT_PORT,
        Field::Port,
        decimal_digits(profile.port as nat),
    );
    let private_key = optional_segment(profile.private_key is Some, Field::PrivateKey, key);
    lemma_apply_before_key(profile);
    lemma_apply_segments_concat(ConnectionView::empty(), before, private_key);
    lemma_apply_optional_segment(
        read_before_key(profile),
        profile.private_key is Some,
        Field::PrivateKey,
        key,
    );
}

/// The line that is written for a profile is read as that profile: this
/// holds of a profile whose host, user and key hold no white space, no `|`
/// and no `:`, just when the profile names a host or a user, its host does
/// not hold the label of the user, and its key holds the label neither of
/// the user, nor of the host, nor of the port.
pub proof fn lemma_round_trip(profile: ConnectionView)
    requires
        has_plain_fields(profile),
    ensures
        spec_parse(spec_serialize(profile)) == Ok::<_, ConnectionError>(profile) <==> reads_back(
            profile,
        ),
{
    if profile.host.len() > 0 || profile.username.len() > 0 {
        let before = read_before_key(profile);
        assert(assemble(spec_serialize(profile)) == match profile.private_key {
            Some(key) => apply_segment(before, segment(Field::PrivateKey, key)),
            None => Ok(before),
        }) by {
            lemma_segments_of_serialized(profile);
            lemma_apply_written(profile);
        }
        if let Some(key) = profile.private_key {
            lemma_apply_key_segment(before, key);
        }
        if spec_contains(profile.host, Field::Username.spec_label()) {
            lemma_labels();
            let i = choose|i: int| occurs_at(profile.host, Field::Username.spec_label(), i);
            assert(profile.host.len() >= 8);
        }
    }
}

/// A segment begins with the label of the port and its colon just when it
/// was made for the port.
proof fn lemma_segment_begins_with_port(field: Field, value: Seq<char>)
    ensures
        label_prefix(Field::Port).is_prefix_of(segment(field, value)) <==> field == Field::Port,
{
    lemma_label_prefixes();
    let whole = segment(field, value);
    let port = label_prefix(Field::Port);
    if field == Field::Port {
        assert(whole.subrange(0, port.len() as int) == port);
    } else {
        assert(whole[0] == label_prefix(field)[0]);
        assert(whole[1] == label_prefix(field)[1]);
        if port.is_prefix_of(whole) {
            assert(whole.subrange(0, port.len() as int)[0] == port[0]);
            assert(whole.subrange(0, port.len() as int)[1] == port[1]);
        }
    }
}

/// Whether one of `segments` begins with the label of the port and its
/// colon.
pub open spec fn has_port_segment(segments: Seq<Seq<char>>) -> bool {
    exists|i: int|
        0 <= i < segments.len() && label_prefix(Field::Port).is_prefix_of(#[trigger] segments[i])
}

/// The segments that are written for a profile hold a port segment just
/// when its port is not the default; the segment then holds the digits of
/// the port.
pub proof fn lemma_port_written_unless_default(profile: ConnectionView)
    ensures
        has_port_segment(segments(profile)) <==> profile.port != DEFAULT_PORT,
        profile.port != DEFAULT_PORT ==> segments(profile).contains(
            segment(Field::Port, decimal_digits(profile.port as nat)),
        ),
{
    let key = match profile.private_key {
        Some(key) => key,
        None => Seq::empty(),
    };
    let digits = decimal_digits(profile.port as nat);
    let username = optional_segment(profile.username.len() > 0, Field::Username, profile.username);
    let host = optional_segment(profile.host.len() > 0, Field::Host, profile.host);
    let port = optional_segment(profile.port != DEFAULT_PORT, Field::Port, digits);
    let private_key = optional_segment(profile.private_key is Some, Field::PrivateKey, key);
    let all = segments(profile);
    lemma_segment_begins_with_port(Field::Username, profile.username);
    lemma_segment_begins_with_port(Field::Host, profile.host);
    lemma_segment_begins_with_port(Field::Port, digits);
    lemma_segment_begins_with_port(Field::PrivateKey, key);
    if profile.port != DEFAULT_PORT {
        let at = username.len() + host.len();
        assert(all[at as int] == segment(Field::Port, digits));
    } else {
        assert forall|i: int| 0 <= i < all.len() implies !label_prefix(Field::Port).is_prefix_of(
            #[trigger] all[i],
        ) by {
            if i < username.len() {
                assert(all[i] == segment(Field::Username, profile.username));
            } else if i < username.len() + host.len() {
                assert(all[i] == segment(Field::Host, profile.host));
            } else {
                assert(all[i] == segment(Field::PrivateKey, key));
            }
        }
    }
}

} // verus!
