//! The list of connections that a file holds, one line each, and the
//! choice of one of them.
use vstd::prelude::*;

use crate::codec::{spec_parse, spec_serialize};
use crate::connection::{Connection, ConnectionView};
use crate::decimal::{parse_usize, spec_parse_decimal};
use crate::error::ConnectionError;
use crate::round_trip::{
    has_plain_fields, lemma_round_trip, lemma_serialized_no_whitespace, reads_back,
};
use crate::text::{
    chars_of, free_of, is_whitespace, lemma_lines_append, lines, spec_lines,
    spec_trim, trim_chars, views, CARRIAGE_RETURN, LINE_FEED,
};

verus! {

/// The views of the profiles in `list`.
pub open spec fn profile_views(list: Seq<Connection>) -> Seq<ConnectionView> {
    Seq::new(list.len(), |i: int| list[i]@)
}

/// The profiles that `lines` store, in their order, or the error of the
/// first line that stores none.
pub open spec fn spec_load_lines(lines: Seq<Seq<char>>) -> Result<
    Seq<ConnectionView>,
    ConnectionError,
>
    decreases lines.len(),
{
    if lines.len() == 0 {
        Ok(Seq::empty())
    } else {
        match spec_load_lines(lines.drop_last()) {
            Ok(profiles) => match spec_parse(lines.last()) {
                Ok(profile) => Ok(profiles.push(profile)),
                Err(error) => Err(error),
            },
            Err(error) => Err(error),
        }
    }
}

/// The profiles that the lines of `contents` store, in their order, or the
/// error of the first line that stores none.
pub open spec fn spec_load_all(contents: Seq<char>) -> Result<
    Seq<ConnectionView>,
    ConnectionError,
> {
    spec_load_lines(spec_lines(contents))
}

/// What `spec_load_lines` gives: where every line stores a profile, these
/// profiles, one for each line; else the error of the first line that
/// stores none.
pub proof fn lemma_load_lines(lines: Seq<Seq<char>>)
    ensures
        match spec_load_lines(lines) {
            Ok(profiles) => {
                &&& profiles.len() == lines.len()
                &&& forall|i: int|
                    0 <= i < lines.len() ==> spec_parse(#[trigger] lines[i]) == Ok::<
                        _,
                        ConnectionError,
                    >(profiles[i])
            },
            Err(error) => exists|first: int|
                {
                    &&& 0 <= first < lines.len()
                    &&& #[trigger] spec_parse(lines[first]) == Err::<ConnectionView, _>(error)
                    &&& forall|i: int| 0 <= i < first ==> spec_parse(#[trigger] lines[i]) is Ok
                },
        },
    decreases lines.len(),
{
    if lines.len() > 0 {
        let before = lines.drop_last();
        lemma_load_lines(before);
        match spec_load_lines(before) {
            Ok(profiles) => {
                match spec_parse(lines.last()) {
                    Ok(profile) => {
                        assert forall|i: int| 0 <= i < lines.len() implies spec_parse(
                            #[trigger] lines[i],
                        ) == Ok::<_, ConnectionError>(profiles.push(profile)[i]) by {
                            if i < before.len() {
                                assert(before[i] == lines[i]);
                            }
                        }
                    },
                    Err(error) => {
                        let first = lines.len() - 1;
                        assert(spec_parse(lines[first]) == Err::<ConnectionView, _>(error));
                        assert forall|i: int| 0 <= i < first implies spec_parse(
                            #[trigger] lines[i],
                        ) is Ok by {
                            assert(before[i] == lines[i]);
                        }
                    },
                }
            },
            Err(error) => {
                let first = choose|first: int|
                    {
                        &&& 0 <= first < before.len()
                        &&& #[trigger] spec_parse(before[first]) == Err::<ConnectionView, _>(error)
                        &&& forall|i: int|
                            0 <= i < first ==> spec_parse(#[trigger] before[i]) is Ok
                    };
                assert(before[first] == lines[first]);
                assert(spec_parse(lines[first]) == Err::<ConnectionView, _>(error));
                assert forall|i: int| 0 <= i < first implies spec_parse(
                    #[trigger] lines[i],
                ) is Ok by {
                    assert(before[i] == lines[i]);
                }
            },
        }
    }
}

/// Once a line has failed, the lines after it change nothing.
proof fn lemma_load_lines_error(lines: Seq<Seq<char>>, done: int)
    requires
        0 <= done <= lines.len(),
        spec_load_lines(lines.take(done)) is Err,
    ensures
        spec_load_lines(lines) == spec_load_lines(lines.take(done)),
    decreases lines.len(),
{
    if done == lines.len() {
        assert(lines.take(done) == lines);
    } else {
        assert(lines.drop_last().take(done) == lines.take(done));
        lemma_load_lines_error(lines.drop_last(), done);
    }
}

/// The profiles that the lines of `contents` store, in the order of the
/// lines. The first line that stores none ends the reading with its error:
/// no list is given then.
pub fn load_all(contents: &str) -> (res: Result<Vec<Connection>, ConnectionError>)
    ensures
        match spec_load_all(contents@) {
            Ok(profiles) => res matches Ok(list) && profile_views(list@) == profiles,
            Err(error) => res == Err::<Vec<Connection>, _>(error),
        },
        res matches Ok(list) ==> {
            &&& list@.len() == spec_lines(contents@).len()
            &&& forall|i: int|
                0 <= i < list@.len() ==> spec_parse(#[trigger] spec_lines(contents@)[i]) == Ok::<
                    _,
                    ConnectionError,
                >(list@[i]@)
        },
        res matches Err(error) ==> exists|first: int|
            {
                &&& 0 <= first < spec_lines(contents@).len()
                &&& #[trigger] spec_parse(spec_lines(contents@)[first]) == Err::<
                    ConnectionView,
                    _,
                >(error)
                &&& forall|i: int|
                    0 <= i < first ==> spec_parse(#[trigger] spec_lines(contents@)[i]) is Ok
            },
{
    let chars = chars_of(contents);
    let all = lines(chars.as_slice());
    let mut list: Vec<Connection> = Vec::new();
    let mut i: usize = 0;
    proof {
        assert(views(all@).take(0) == Seq::<Seq<char>>::empty());
        assert(profile_views(list@) == Seq::<ConnectionView>::empty());
    }
    while i < all.len()
        invariant
            i <= all.len(),
            views(all@) == spec_lines(contents@),
            spec_load_lines(views(all@).take(i as int)) == Ok::<_, ConnectionError>(
                profile_views(list@),
            ),
        decreases all.len() - i,
    {
        assert(views(all@).take(i + 1).drop_last() == views(all@).take(i as int));
        match Connection::from_chars(all[i].as_slice()) {
            Ok(profile) => {
                let ghost before = profile_views(list@);
                list.push(profile);
                assert(profile_views(list@) == before.push(profile@));
            },
            Err(error) => {
                proof {
                    lemma_load_lines_error(views(all@), i + 1);
                    lemma_load_lines(spec_lines(contents@));
                }
                return Err(error);
            },
        }
        i += 1;
    }
    proof {
        assert(views(all@).take(all@.len() as int) == views(all@));
        lemma_load_lines(spec_lines(contents@));
    }
    Ok(list)
}

/// The record at `index`, which counts from 0. An index that is not below
/// the number of records, the number itself included, is out of range.
pub fn select(records: &[Connection], index: usize) -> (res: Result<&Connection, ConnectionError>)
    ensures
        index < records@.len() ==> res == Ok::<_, ConnectionError>(&records@[index as int]),
        index >= records@.len() ==> res == Err::<&Connection, _>(
            ConnectionError::IndexOutOfRange,
        ),
{
    if index < records.len() {
        Ok(&records[index])
    } else {
        Err(ConnectionError::IndexOutOfRange)
    }
}

/// What the answer `input` to the question which of `count` records to
/// take stands for: the number that it writes, once the white space
/// around it is gone. The number may be `count` itself but no more.
pub open spec fn spec_read_input(count: nat, input: Seq<char>) -> Result<usize, ConnectionError> {
    match spec_parse_decimal(spec_trim(input), usize::MAX as nat) {
        Some(index) => if index > count {
            Err(ConnectionError::IndexOutOfRange)
        } else {
            Ok(index as usize)
        },
        None => Err(ConnectionError::NotANumber),
    }
}

/// The index that the answer `input` gives, to the question which of
/// `hosts` to take. The answer is a number, with white space around it or
/// without. A number above the number of hosts is out of range; the number
/// of hosts itself is let through, though no host has this index.
pub fn read_input(hosts: &[Connection], input: &str) -> (res: Result<usize, ConnectionError>)
    ensures
        res == spec_read_input(hosts@.len(), input@),
        res matches Ok(index) ==> index <= hosts@.len(),
{
    let answer = trim_chars(chars_of(input).as_slice());
    match parse_usize(answer.as_slice()) {
        Some(index) => {
            if index > hosts.len() {
                Err(ConnectionError::IndexOutOfRange)
            } else {
                Ok(index)
            }
        },
        None => Err(ConnectionError::NotANumber),
    }
}

/// What is loaded after the line of a profile has been appended: what was
/// loaded before, and then that profile. This holds where what was there
/// is empty or ends with a line feed, and the line of the profile is read
/// as the profile.
pub proof fn lemma_load_appended(contents: Seq<char>, profile: ConnectionView)
    requires
        contents.len() == 0 || contents.last() == LINE_FEED,
        has_plain_fields(profile),
        reads_back(profile),
    ensures
        spec_load_all(contents + spec_serialize(profile).push(LINE_FEED)) == match spec_load_all(
            contents,
        ) {
            Ok(profiles) => Ok(profiles.push(profile)),
            Err(error) => Err(error),
        },
{
    let line = spec_serialize(profile);
    lemma_round_trip(profile);
    assert(free_of(line, LINE_FEED) && free_of(line, CARRIAGE_RETURN)) by {
        lemma_serialized_no_whitespace(profile);
        assert forall|i: int| 0 <= i < line.len() implies #[trigger] line[i] != LINE_FEED
            && line[i] != CARRIAGE_RETURN by {
            assert(!is_whitespace(line[i]));
        }
    }
    lemma_lines_append(contents, line);
    let all = spec_lines(contents).push(line);
    assert(all.drop_last() == spec_lines(contents));
    assert(all.last() == line);
}

} // verus!
