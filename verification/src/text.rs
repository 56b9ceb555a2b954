//! Character-level text helpers: white space, searching, splitting and
//! trimming, each specified over `Seq<char>`.
use vstd::prelude::*;

verus! {

/// `String::push` appends the given character to the end of the string.
pub assume_specification[ String::push ](s: &mut String, c: char)
    ensures
        final(s)@ == old(s)@.push(c),
;

/// Whether `c` is white space, as Unicode defines it (`White_Space`).
pub open spec fn spec_is_whitespace(c: char) -> bool {
    let n = c as u32;
    ||| 0x09 <= n <= 0x0D
    ||| n == 0x20
    ||| n == 0x85
    ||| n == 0xA0
    ||| n == 0x1680
    ||| 0x2000 <= n <= 0x200A
    ||| n == 0x2028
    ||| n == 0x2029
    ||| n == 0x202F
    ||| n == 0x205F
    ||| n == 0x3000
}

/// Whether `c` is white space, as Unicode defines it (`White_Space`).
#[verifier::when_used_as_spec(spec_is_whitespace)]
pub fn is_whitespace(c: char) -> (b: bool)
    ensures
        b == spec_is_whitespace(c),
{
    let n: u32 = c as u32;
    (0x09 <= n && n <= 0x0D) || n == 0x20 || n == 0x85 || n == 0xA0 || n == 0x1680 || (0x2000 <= n
        && n <= 0x200A) || n == 0x2028 || n == 0x2029 || n == 0x202F || n == 0x205F || n == 0x3000
}

/// The characters of `s`, in order.
pub fn chars_of(s: &str) -> (out: Vec<char>)
    ensures
        out@ == s@,
{
    let mut out: Vec<char> = Vec::new();
    for c in it: s.chars()
        invariant
            it.seq() == s@,
            out@ == s@.take(it.index() as int),
    {
        assert(s@.take(it.index() + 1) == s@.take(it.index() as int).push(c));
        out.push(c);
    }
    out
}

/// The string whose characters are `v`.
pub fn string_of(v: &[char]) -> (out: String)
    ensures
        out@ == v@,
{
    let mut out = String::new();
    let mut i: usize = 0;
    while i < v.len()
        invariant
            i <= v.len(),
            out@ == v@.take(i as int),
        decreases v.len() - i,
    {
        out.push(v[i]);
        i += 1;
    }
    out
}

/// `s` without its white space.
pub open spec fn spec_strip_whitespace(s: Seq<char>) -> Seq<char> {
    s.filter(|c: char| !is_whitespace(c))
}

/// The characters of `s` that are not white space, in order.
pub fn strip_whitespace(s: &[char]) -> (out: Vec<char>)
    ensures
        out@ == spec_strip_whitespace(s@),
{
    let mut out: Vec<char> = Vec::new();
    let mut i: usize = 0;
    proof {
        reveal(Seq::filter);
    }
    while i < s.len()
        invariant
            i <= s.len(),
            out@ == spec_strip_whitespace(s@.take(i as int)),
        decreases s.len() - i,
    {
        proof {
            reveal(Seq::filter);
            assert(s@.take(i + 1).drop_last() == s@.take(i as int));
        }
        if !is_whitespace(s[i]) {
            out.push(s[i]);
        }
        i += 1;
    }
    assert(s@.take(s@.len() as int) == s@);
    out
}

/// The index of the first `c` in `s`, or `s.len()` where `s` holds none.
pub open spec fn spec_find(s: Seq<char>, c: char) -> int
    decreases s.len(),
{
    if s.len() == 0 || s[0] == c {
        0
    } else {
        1 + spec_find(s.drop_first(), c)
    }
}

/// `spec_find(s, c)` is the least index of `s` that holds `c`, and `s.len()`
/// where there is none.
pub proof fn lemma_find(s: Seq<char>, c: char)
    ensures
        0 <= spec_find(s, c) <= s.len(),
        forall|j: int| 0 <= j < spec_find(s, c) ==> s[j] != c,
        spec_find(s, c) < s.len() ==> s[spec_find(s, c)] == c,
    decreases s.len(),
{
    if s.len() == 0 || s[0] == c {
    } else {
        let t = s.drop_first();
        lemma_find(t, c);
        assert forall|j: int| 0 <= j < spec_find(s, c) implies s[j] != c by {
            if j > 0 {
                assert(s[j] == t[j - 1]);
            }
        }
    }
}

/// An index `i` of `s` below which `c` does not occur and which holds `c`,
/// or is `s.len()`, is `spec_find(s, c)`.
pub proof fn lemma_find_is(s: Seq<char>, c: char, i: int)
    requires
        0 <= i <= s.len(),
        forall|j: int| 0 <= j < i ==> s[j] != c,
        i < s.len() ==> s[i] == c,
    ensures
        spec_find(s, c) == i,
{
    lemma_find(s, c);
    let k = spec_find(s, c);
    if k < i {
        assert(s[k] == c);
    } else if i < k {
        assert(s[i] == c);
    }
}

/// The index of the first `c` in `s`, or `s.len()` where `s` holds none.
pub fn find(s: &[char], c: char) -> (i: usize)
    ensures
        i == spec_find(s@, c),
{
    let mut i: usize = 0;
    while i < s.len() && s[i] != c
        invariant
            i <= s.len(),
            forall|j: int| 0 <= j < i ==> s@[j] != c,
        decreases s.len() - i,
    {
        i += 1;
    }
    proof {
        lemma_find_is(s@, c, i as int);
    }
    i
}

/// Whether `pat` stands in `s` at index `i`.
pub open spec fn occurs_at(s: Seq<char>, pat: Seq<char>, i: int) -> bool {
    0 <= i && i + pat.len() <= s.len() && s.subrange(i, i + pat.len()) == pat
}

/// Whether `pat` stands somewhere in `s`.
pub open spec fn spec_contains(s: Seq<char>, pat: Seq<char>) -> bool {
    exists|i: int| occurs_at(s, pat, i)
}

fn matches_at(s: &[char], pat: &[char], i: usize) -> (b: bool)
    requires
        i + pat.len() <= s.len(),
    ensures
        b == occurs_at(s@, pat@, i as int),
{
    let mut k: usize = 0;
    while k < pat.len()
        invariant
            k <= pat.len(),
            i + pat.len() <= s.len(),
            forall|j: int| 0 <= j < k ==> s@[i + j] == pat@[j],
        decreases pat.len() - k,
    {
        if s[i + k] != pat[k] {
            assert(s@.subrange(i as int, i + pat.len())[k as int] != pat@[k as int]);
            return false;
        }
        k += 1;
    }
    assert(s@.subrange(i as int, i + pat.len()) =~= pat@);
    true
}

/// Whether `pat` stands somewhere in `s`.
pub fn contains(s: &[char], pat: &[char]) -> (b: bool)
    ensures
        b == spec_contains(s@, pat@),
{
    if pat.len() > s.len() {
        return false;
    }
    let last: usize = s.len() - pat.len();
    let mut i: usize = 0;
    loop
        invariant
            last == s.len() - pat.len(),
            i <= last,
            forall|j: int| 0 <= j < i ==> !occurs_at(s@, pat@, j),
        decreases last - i,
    {
        if matches_at(s, pat, i) {
            return true;
        }
        if i == last {
            return false;
        }
        i += 1;
    }
}

/// The views of the vectors in `v`.
pub open spec fn views(v: Seq<Vec<char>>) -> Seq<Seq<char>> {
    Seq::new(v.len(), |i: int| v[i]@)
}

/// The pieces of `s` between the occurrences of `sep`: one more piece than
/// there are occurrences.
pub open spec fn spec_split(s: Seq<char>, sep: char) -> Seq<Seq<char>>
    decreases s.len(),
{
    if s.len() == 0 {
        seq![Seq::empty()]
    } else {
        let before = spec_split(s.drop_last(), sep);
        if s.last() == sep {
            before.push(Seq::empty())
        } else {
            before.drop_last().push(before.last().push(s.last()))
        }
    }
}

/// The pieces of `s` between the occurrences of `sep`.
pub fn split(s: &[char], sep: char) -> (out: Vec<Vec<char>>)
    ensures
        views(out@) == spec_split(s@, sep),
{
    let mut pieces: Vec<Vec<char>> = Vec::new();
    let mut piece: Vec<char> = Vec::new();
    let mut i: usize = 0;
    assert(views(pieces@).push(piece@) =~= seq![Seq::<char>::empty()]);
    while i < s.len()
        invariant
            i <= s.len(),
            views(pieces@).push(piece@) == spec_split(s@.take(i as int), sep),
        decreases s.len() - i,
    {
        let ghost before = views(pieces@).push(piece@);
        assert(s@.take(i + 1).drop_last() == s@.take(i as int));
        if s[i] == sep {
            pieces.push(piece);
            piece = Vec::new();
            assert(views(pieces@).push(piece@) =~= before.push(Seq::empty()));
        } else {
            piece.push(s[i]);
            assert(views(pieces@).push(piece@) =~= before.drop_last().push(
                before.last().push(s@[i as int]),
            ));
        }
        i += 1;
    }
    assert(s@.take(s@.len() as int) == s@);
    let ghost before = views(pieces@).push(piece@);
    pieces.push(piece);
    assert(views(pieces@) =~= before);
    pieces
}

/// The characters of `s` from index `from` up to index `to`.
pub(crate) fn copy_range(s: &[char], from: usize, to: usize) -> (out: Vec<char>)
    requires
        from <= to <= s.len(),
    ensures
        out@ == s@.subrange(from as int, to as int),
{
    let mut out: Vec<char> = Vec::new();
    let mut i: usize = from;
    while i < to
        invariant
            from <= i <= to <= s.len(),
            out@ == s@.subrange(from as int, i as int),
        decreases to - i,
    {
        out.push(s[i]);
        i += 1;
    }
    out
}

/// `s` without the white space that leads it.
pub open spec fn spec_trim_start(s: Seq<char>) -> Seq<char>
    decreases s.len(),
{
    if s.len() > 0 && is_whitespace(s[0]) {
        spec_trim_start(s.drop_first())
    } else {
        s
    }
}

/// `s` without the white space that ends it.
pub open spec fn spec_trim_end(s: Seq<char>) -> Seq<char>
    decreases s.len(),
{
    if s.len() > 0 && is_whitespace(s.last()) {
        spec_trim_end(s.drop_last())
    } else {
        s
    }
}

/// `s` without the white space that leads it and that ends it.
pub open spec fn spec_trim(s: Seq<char>) -> Seq<char> {
    spec_trim_end(spec_trim_start(s))
}

/// `s` without the white space that leads it and that ends it.
pub fn trim_chars(s: &[char]) -> (out: Vec<char>)
    ensures
        out@ == spec_trim(s@),
{
    let mut start: usize = 0;
    assert(s@.skip(0) == s@);
    while start < s.len() && is_whitespace(s[start])
        invariant
            start <= s.len(),
            spec_trim_start(s@) == spec_trim_start(s@.skip(start as int)),
        decreases s.len() - start,
    {
        assert(s@.skip(start as int).drop_first() == s@.skip(start + 1));
        start += 1;
    }
    assert(spec_trim_start(s@) == s@.skip(start as int));
    let mut end: usize = s.len();
    assert(s@.skip(start as int) == s@.subrange(start as int, end as int));
    while end > start && is_whitespace(s[end - 1])
        invariant
            start <= end <= s.len(),
            spec_trim(s@) == spec_trim_end(s@.subrange(start as int, end as int)),
        decreases end - start,
    {
        assert(s@.subrange(start as int, end as int).drop_last() == s@.subrange(
            start as int,
            end - 1,
        ));
        end -= 1;
    }
    copy_range(s, start, end)
}

/// `s` without the white space that leads it and that ends it.
pub fn trim(s: &str) -> (out: String)
    ensures
        out@ == spec_trim(s@),
{
    string_of(trim_chars(chars_of(s).as_slice()).as_slice())
}

/// The character that ends a line.
pub const LINE_FEED: char = '\n';

/// The character that may stand before the line feed at the end of a line.
pub const CARRIAGE_RETURN: char = '\r';

/// `s` without the carriage return that may end it.
pub open spec fn spec_strip_carriage_return(s: Seq<char>) -> Seq<char> {
    if s.len() > 0 && s.last() == CARRIAGE_RETURN {
        s.drop_last()
    } else {
        s
    }
}

/// The lines of `s`. A line ends with a line feed, or with a carriage
/// return and a line feed, neither of which belongs to it; what follows
/// the last line feed is a line if it is not empty, carriage return
/// included.
pub open spec fn spec_lines(s: Seq<char>) -> Seq<Seq<char>> {
    let pieces = spec_split(s, LINE_FEED);
    let ended = Seq::new(
        (pieces.len() - 1) as nat,
        |i: int| spec_strip_carriage_return(pieces[i]),
    );
    if pieces.last().len() > 0 {
        ended.push(pieces.last())
    } else {
        ended
    }
}

/// There is at least one piece.
pub proof fn lemma_split_len(s: Seq<char>, sep: char)
    ensures
        spec_split(s, sep).len() >= 1,
    decreases s.len(),
{
    if s.len() > 0 {
        lemma_split_len(s.drop_last(), sep);
    }
}

/// The lines of `s`. A line ends with a line feed, or with a carriage
/// return and a line feed, neither of which belongs to it; what follows
/// the last line feed is a line if it is not empty, carriage return
/// included.
pub fn lines(s: &[char]) -> (out: Vec<Vec<char>>)
    ensures
        views(out@) == spec_lines(s@),
{
    let pieces = split(s, LINE_FEED);
    proof {
        lemma_split_len(s@, LINE_FEED);
    }
    let ended: usize = pieces.len() - 1;
    let mut out: Vec<Vec<char>> = Vec::new();
    let mut i: usize = 0;
    while i < ended
        invariant
            i <= ended,
            ended == pieces.len() - 1,
            views(pieces@) == spec_split(s@, LINE_FEED),
            views(out@) == Seq::new(
                i as nat,
                |k: int| spec_strip_carriage_return(spec_split(s@, LINE_FEED)[k]),
            ),
        decreases ended - i,
    {
        let piece = pieces[i].as_slice();
        assert(piece@ == views(pieces@)[i as int]);
        let n = piece.len();
        let line = if n > 0 && piece[n - 1] == CARRIAGE_RETURN {
            copy_range(piece, 0, n - 1)
        } else {
            copy_range(piece, 0, n)
        };
        assert(piece@.subrange(0, n as int) == piece@);
        assert(line@ == spec_strip_carriage_return(piece@));
        let ghost before = views(out@);
        out.push(line);
        assert(views(out@) =~= before.push(line@));
        i += 1;
        assert(before.push(line@) =~= Seq::new(
            i as nat,
            |k: int| spec_strip_carriage_return(spec_split(s@, LINE_FEED)[k]),
        ));
    }
    let last = pieces[ended].as_slice();
    assert(last@ == views(pieces@)[ended as int]);
    if last.len() > 0 {
        let ghost before = views(out@);
        out.push(copy_range(last, 0, last.len()));
        assert(last@.subrange(0, last.len() as int) == last@);
        assert(views(out@) =~= before.push(last@));
    }
    out
}

/// Whether `s` holds no white space.
pub open spec fn no_whitespace(s: Seq<char>) -> bool {
    forall|i: int| 0 <= i < s.len() ==> !is_whitespace(#[trigger] s[i])
}

/// Whether `s` holds no `c`.
pub open spec fn free_of(s: Seq<char>, c: char) -> bool {
    forall|i: int| 0 <= i < s.len() ==> #[trigger] s[i] != c
}

/// What two sequences are free of, they are free of together.
pub proof fn lemma_free_of_concat(a: Seq<char>, b: Seq<char>, c: char)
    requires
        free_of(a, c),
        free_of(b, c),
    ensures
        free_of(a + b, c),
{
    assert forall|i: int| 0 <= i < (a + b).len() implies #[trigger] (a + b)[i] != c by {
        if i < a.len() {
            assert((a + b)[i] == a[i]);
        } else {
            assert((a + b)[i] == b[i - a.len()]);
        }
    }
}

/// Two sequences without white space hold none together.
pub proof fn lemma_no_whitespace_concat(a: Seq<char>, b: Seq<char>)
    requires
        no_whitespace(a),
        no_whitespace(b),
    ensures
        no_whitespace(a + b),
{
    assert forall|i: int| 0 <= i < (a + b).len() implies !is_whitespace(#[trigger] (a + b)[i]) by {
        if i < a.len() {
            assert((a + b)[i] == a[i]);
        } else {
            assert((a + b)[i] == b[i - a.len()]);
        }
    }
}

/// Stripping changes nothing where there is no white space.
pub proof fn lemma_strip_whitespace_none(s: Seq<char>)
    requires
        no_whitespace(s),
    ensures
        spec_strip_whitespace(s) == s,
    decreases s.len(),
{
    reveal(Seq::filter);
    if s.len() > 0 {
        lemma_strip_whitespace_none(s.drop_last());
        assert(!is_whitespace(s[s.len() - 1]));
        assert(s.drop_last().push(s.last()) == s);
    }
}

/// A sequence without the separator is its own single piece.
pub proof fn lemma_split_none(s: Seq<char>, sep: char)
    requires
        free_of(s, sep),
    ensures
        spec_split(s, sep) == seq![s],
    decreases s.len(),
{
    if s.len() == 0 {
        assert(s == Seq::<char>::empty());
    } else {
        lemma_split_none(s.drop_last(), sep);
        assert(s[s.len() - 1] != sep);
        assert(s.drop_last().push(s.last()) == s);
        assert(seq![s.drop_last()].drop_last().push(s) == seq![s]);
    }
}

/// What is added to a sequence, and holds no separator, is added to its
/// last piece.
pub proof fn lemma_split_append(s: Seq<char>, added: Seq<char>, sep: char)
    requires
        free_of(added, sep),
    ensures
        spec_split(s + added, sep) == spec_split(s, sep).drop_last().push(
            spec_split(s, sep).last() + added,
        ),
    decreases added.len(),
{
    let pieces = spec_split(s, sep);
    lemma_split_len(s, sep);
    if added.len() == 0 {
        assert(s + added == s);
        assert(pieces.last() + added == pieces.last());
        assert(pieces.drop_last().push(pieces.last()) == pieces);
    } else {
        let shorter = added.drop_last();
        lemma_split_append(s, shorter, sep);
        assert((s + added).drop_last() == s + shorter);
        assert((s + added).last() == added[added.len() - 1]);
        let before = pieces.drop_last().push(pieces.last() + shorter);
        assert(before.drop_last() == pieces.drop_last());
        assert((pieces.last() + shorter).push(added.last()) == pieces.last() + added);
    }
}

/// What follows a separator, and holds none, is one piece more.
pub proof fn lemma_split_push_part(s: Seq<char>, part: Seq<char>, sep: char)
    requires
        free_of(part, sep),
    ensures
        spec_split(s.push(sep) + part, sep) == spec_split(s, sep).push(part),
{
    lemma_split_append(s.push(sep), part, sep);
    assert(s.push(sep).drop_last() == s);
    assert(spec_split(s, sep).push(Seq::empty()).drop_last() == spec_split(s, sep));
    assert(Seq::<char>::empty() + part == part);
}

/// A line without line feed and without carriage return, with its line
/// feed, is one line more after what is empty or ends with a line feed.
pub proof fn lemma_lines_append(s: Seq<char>, line: Seq<char>)
    requires
        s.len() == 0 || s.last() == LINE_FEED,
        free_of(line, LINE_FEED),
        free_of(line, CARRIAGE_RETURN),
    ensures
        spec_lines(s + line.push(LINE_FEED)) == spec_lines(s).push(line),
{
    let pieces = spec_split(s, LINE_FEED);
    lemma_split_len(s, LINE_FEED);
    assert(pieces.last() == Seq::<char>::empty());
    lemma_split_append(s, line, LINE_FEED);
    assert(Seq::<char>::empty() + line == line);
    let whole = s + line.push(LINE_FEED);
    assert(whole.drop_last() == s + line);
    assert(whole.last() == LINE_FEED);
    let after = spec_split(whole, LINE_FEED);
    assert(after == pieces.drop_last().push(line).push(Seq::empty()));
    if line.len() > 0 {
        assert(line[line.len() - 1] != CARRIAGE_RETURN);
    }
    assert(spec_strip_carriage_return(line) == line);
    assert(spec_lines(whole) =~= spec_lines(s).push(line));
}

/// Where `pat` stands in `s` at `i`, the characters of `s` from `i` on are
/// those of `pat`.
pub proof fn lemma_occurs_at_chars(s: Seq<char>, pat: Seq<char>, i: int, j: int)
    requires
        occurs_at(s, pat, i),
        0 <= j < pat.len(),
    ensures
        s[i + j] == pat[j],
{
    assert(s.subrange(i, i + pat.len())[j] == s[i + j]);
}

/// A sequence without the first character of `pat` does not hold `pat`.
pub proof fn lemma_contains_needs_first(s: Seq<char>, pat: Seq<char>)
    requires
        pat.len() > 0,
        free_of(s, pat[0]),
    ensures
        !spec_contains(s, pat),
{
    assert forall|i: int| !occurs_at(s, pat, i) by {
        if occurs_at(s, pat, i) {
            lemma_occurs_at_chars(s, pat, i, 0);
        }
    }
}

/// Where `pat` begins nowhere in `prefix`, it stands in `prefix + s` just
/// when it stands in `s`.
pub proof fn lemma_contains_after_prefix(prefix: Seq<char>, s: Seq<char>, pat: Seq<char>)
    requires
        forall|i: int| 0 <= i < prefix.len() ==> !occurs_at(prefix + s, pat, i),
    ensures
        spec_contains(prefix + s, pat) == spec_contains(s, pat),
{
    let whole = prefix + s;
    let n = prefix.len() as int;
    if spec_contains(whole, pat) {
        let i = choose|i: int| occurs_at(whole, pat, i);
        assert(whole.subrange(i, i + pat.len()) == s.subrange(i - n, i - n + pat.len()));
        assert(occurs_at(s, pat, i - n));
    }
    if spec_contains(s, pat) {
        let i = choose|i: int| occurs_at(s, pat, i);
        assert(whole.subrange(i + n, i + n + pat.len()) == s.subrange(i, i + pat.len()));
        assert(occurs_at(whole, pat, i + n));
    }
}

} // verus!
