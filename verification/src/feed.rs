//! The update feed: a short text that names the newest build.
//!
//! ```text
//! build_id: 1780797000
//! version: 1.4.7-cd-20260607
//! exe: ConectDesk-Setup.exe
//! sha512: <hex digits>
//! ```

use vstd::prelude::*;
use vstd::slice::slice_subrange;
use crate::text::{
    begins_with, chars_of, decimal, is_digit, is_white_space, law_beginnings_and_endings,
    law_decimal_is_digits, law_decimal_parses_back, law_marks_around_are_trimmed,
    law_numerals_are_read, law_other_texts_are_no_numerals, law_white_space_around_is_trimmed,
    lemma_first_line, lemma_occurs_at, line_seq, lines, only, parse, parsed, pieces, starts_with,
    string_of, trim, trim_back, trim_both, trim_char, trim_front, trimmed,
};

verus! {

/// What a feed says of the newest build.
pub struct FeedView {
    pub build_id: u64,
    pub version: Seq<char>,
    pub exe: Seq<char>,
    pub sha512: Option<Seq<char>>,
}

/// A value without white space, single quotes and double quotes around it, taken off in this
/// order.
pub open spec fn unquoted(value: Seq<char>) -> Seq<char> {
    trim_both(trim_both(trimmed(value), only('\'')), only('"'))
}

/// The value on the last line that begins with `key`.
pub open spec fn last_value(lines: Seq<Seq<char>>, key: Seq<char>) -> Option<Seq<char>>
    decreases lines.len(),
{
    if lines.len() == 0 {
        None
    } else if begins_with(trimmed(lines.last()), key) {
        Some(unquoted(trimmed(lines.last()).skip(key.len() as int)))
    } else {
        last_value(lines.drop_last(), key)
    }
}

/// The value on the last line that begins with `key` and has a value.
pub open spec fn last_filled_value(lines: Seq<Seq<char>>, key: Seq<char>) -> Option<Seq<char>>
    decreases lines.len(),
{
    if lines.len() == 0 {
        None
    } else {
        let line = trimmed(lines.last());
        if begins_with(line, key) && unquoted(line.skip(key.len() as int)).len() > 0 {
            Some(unquoted(line.skip(key.len() as int)))
        } else {
            last_filled_value(lines.drop_last(), key)
        }
    }
}

/// The number that a build id stands for.
pub open spec fn build_number(value: Option<Seq<char>>) -> Option<u64> {
    match value {
        Some(digits) => match parsed(digits, 10, u64::MAX as int) {
            Some(n) => Some(n as u64),
            None => None,
        },
        None => None,
    }
}

/// What the lines of a feed say. The build id and the program are required.
pub open spec fn feed_of_lines(lines: Seq<Seq<char>>) -> Option<FeedView> {
    let build_id = build_number(last_value(lines, "build_id:"@));
    let version = last_value(lines, "version:"@);
    let exe = last_value(lines, "exe:"@);
    if build_id is Some && exe is Some {
        Some(
            FeedView {
                build_id: build_id->0,
                version: match version {
                    Some(text) => text,
                    None => Seq::empty(),
                },
                exe: exe->0,
                sha512: last_filled_value(lines, "sha512:"@),
            },
        )
    } else {
        None
    }
}

/// What a feed says.
pub open spec fn fork_feed(s: Seq<char>) -> Option<FeedView> {
    feed_of_lines(line_seq(s))
}

/// The text without white space and quotes around it.
fn bare(value: &[char]) -> (inner: &[char])
    ensures
        inner@ == unquoted(value@),
{
    trim_char(trim_char(trim(value), '\''), '"')
}

/// Reads a feed: the build id, the version, the program and its SHA-512 digest.
pub fn parse_fork_feed(s: &str) -> (feed: Option<(u64, String, String, Option<String>)>)
    ensures
        (match feed {
            Some((build_id, version, exe, sha512)) => Some(
                FeedView {
                    build_id,
                    version: version@,
                    exe: exe@,
                    sha512: sha512.deep_view(),
                },
            ),
            None => None,
        }) == fork_feed(s@),
{
    let chars = chars_of(s);
    let parts = lines(chars.as_slice());
    let ghost all = pieces(parts@);
    let build_key = chars_of("build_id:");
    let version_key = chars_of("version:");
    let exe_key = chars_of("exe:");
    let sha512_key = chars_of("sha512:");
    let mut build_id: Option<u64> = None;
    let mut version = String::new();
    let mut exe: Option<String> = None;
    let mut sha512: Option<String> = None;
    for i in 0..parts.len()
        invariant
            all == pieces(parts@),
            build_key@ == "build_id:"@,
            version_key@ == "version:"@,
            exe_key@ == "exe:"@,
            sha512_key@ == "sha512:"@,
            build_id == build_number(last_value(all.take(i as int), "build_id:"@)),
            version@ == (match last_value(all.take(i as int), "version:"@) {
                Some(text) => text,
                None => Seq::empty(),
            }),
            exe.deep_view() == last_value(all.take(i as int), "exe:"@),
            sha512.deep_view() == last_filled_value(all.take(i as int), "sha512:"@),
    {
        let line = trim(parts[i]);
        proof {
            assert(all.take(i as int + 1).drop_last() =~= all.take(i as int));
            assert(all.take(i as int + 1).last() == parts@[i as int]@);
            lemma_keys_exclude_each_other(line@);
        }
        if starts_with(line, build_key.as_slice()) {
            let rest = slice_subrange(line, build_key.len(), line.len());
            assert(rest@ =~= line@.skip(build_key@.len() as int));
            build_id = parse(bare(rest), 10, u64::MAX);
        } else if starts_with(line, version_key.as_slice()) {
            let rest = slice_subrange(line, version_key.len(), line.len());
            assert(rest@ =~= line@.skip(version_key@.len() as int));
            version = string_of(bare(rest));
        } else if starts_with(line, exe_key.as_slice()) {
            let rest = slice_subrange(line, exe_key.len(), line.len());
            assert(rest@ =~= line@.skip(exe_key@.len() as int));
            exe = Some(string_of(bare(rest)));
        } else if starts_with(line, sha512_key.as_slice()) {
            let rest = slice_subrange(line, sha512_key.len(), line.len());
            assert(rest@ =~= line@.skip(sha512_key@.len() as int));
            let value = bare(rest);
            if value.len() > 0 {
                sha512 = Some(string_of(value));
            }
        }
    }
    assert(all.take(parts@.len() as int) =~= all);
    match (build_id, exe) {
        (Some(id), Some(program)) => Some((id, version, program, sha512)),
        _ => None,
    }
}

/// No line begins with two of the keys.
proof fn lemma_keys_exclude_each_other(line: Seq<char>)
    ensures
        begins_with(line, "build_id:"@) ==> line[0] == 'b',
        begins_with(line, "version:"@) ==> line[0] == 'v',
        begins_with(line, "exe:"@) ==> line[0] == 'e',
        begins_with(line, "sha512:"@) ==> line[0] == 's',
{
    reveal_strlit("build_id:");
    reveal_strlit("version:");
    reveal_strlit("exe:");
    reveal_strlit("sha512:");
    if begins_with(line, "build_id:"@) {
        lemma_occurs_at(line, "build_id:"@, 0, 0);
    }
    if begins_with(line, "version:"@) {
        lemma_occurs_at(line, "version:"@, 0, 0);
    }
    if begins_with(line, "exe:"@) {
        lemma_occurs_at(line, "exe:"@, 0, 0);
    }
    if begins_with(line, "sha512:"@) {
        lemma_occurs_at(line, "sha512:"@, 0, 0);
    }
}

/// The number that a text stands for, zero if it is none.
pub open spec fn build_made(made: Seq<char>) -> int {
    match parsed(made, 10, u64::MAX as int) {
        Some(n) => n,
        None => 0,
    }
}

/// The number of this build, out of the text that was set when it was made: zero if that is no
/// number.
pub fn local_build_id(made: &str) -> (build_id: u64)
    ensures
        build_id == build_made(made@),
{
    let chars = chars_of(made);
    match parse(chars.as_slice(), 10, u64::MAX) {
        Some(n) => n,
        None => 0,
    }
}

// ---------------------------------------------------------------------------------------------
// Laws
// ---------------------------------------------------------------------------------------------

/// A value that a feed gives back as it was written: on one line, with neither white space nor
/// quotes at its ends.
pub open spec fn is_plain(value: Seq<char>) -> bool {
    &&& value.len() > 0
    &&& !value.contains('\n')
    &&& is_plain_end(value[0])
    &&& is_plain_end(value.last())
}

/// Neither white space nor a quote.
pub open spec fn is_plain_end(c: char) -> bool {
    !is_white_space(c) && c != '\'' && c != '"'
}

/// One line of a feed, with the line feed that closes it.
pub open spec fn feed_line(key: Seq<char>, value: Seq<char>) -> Seq<char> {
    key + seq![' '] + value + seq!['\n']
}

/// A feed as it is published.
pub open spec fn written_feed(feed: FeedView) -> Seq<char> {
    feed_line("build_id:"@, decimal(feed.build_id as nat)) + (feed_line("version:"@, feed.version)
        + (feed_line("exe:"@, feed.exe) + (match feed.sha512 {
        Some(digest) => feed_line("sha512:"@, digest),
        None => Seq::empty(),
    })))
}

/// A plain value keeps its ends when it is trimmed.
proof fn lemma_plain_value(value: Seq<char>)
    requires
        is_plain(value),
    ensures
        unquoted(seq![' '] + value) == value,
{
    let spaced = seq![' '] + value;
    assert(spaced.drop_first() =~= value);
    reveal_with_fuel(trim_front, 3);
    reveal_with_fuel(trim_back, 2);
    assert(trimmed(spaced) == value);
    assert(trim_both(value, only('\'')) == value);
}

/// A written line reads as its key and its value.
proof fn lemma_written_line(key: Seq<char>, value: Seq<char>, rest: Seq<char>)
    requires
        is_plain(value),
        key.len() > 0,
        !is_white_space(key[0]),
        !key.contains('\n'),
    ensures
        ({
            let line = key + seq![' '] + value;
            &&& line_seq(feed_line(key, value) + rest) == seq![line] + line_seq(rest)
            &&& trimmed(line) == line
            &&& line[0] == key[0]
            &&& begins_with(line, key)
            &&& unquoted(line.skip(key.len() as int)) == value
        }),
{
    let line = key + seq![' '] + value;
    assert(feed_line(key, value) + rest =~= line + seq!['\n'] + rest);
    assert(!line.contains('\n')) by {
        if line.contains('\n') {
            let i = choose|i: int| 0 <= i < line.len() && line[i] == '\n';
            if i < key.len() {
                assert(key[i] == '\n');
            } else if i > key.len() {
                assert(value[i - key.len() - 1] == '\n');
            }
        }
    }
    assert(line.last() == value.last());
    lemma_first_line(line, rest);
    reveal_with_fuel(trim_front, 2);
    reveal_with_fuel(trim_back, 2);
    assert(line.subrange(0, key.len() as int) =~= key);
    assert(line.skip(key.len() as int) =~= seq![' '] + value);
    lemma_plain_value(value);
}

/// A published feed reads back as what it says.
pub proof fn law_written_feed_reads_back(feed: FeedView)
    requires
        is_plain(feed.version),
        is_plain(feed.exe),
        feed.sha512 matches Some(digest) ==> is_plain(digest),
    ensures
        fork_feed(written_feed(feed)) == Some(feed),
{
    let digits = decimal(feed.build_id as nat);
    law_decimal_is_digits(feed.build_id as nat);
    law_decimal_parses_back(feed.build_id as nat, u64::MAX as int);
    assert(is_digit(digits[0]) && is_digit(digits.last()));
    reveal_strlit("build_id:");
    reveal_strlit("version:");
    reveal_strlit("exe:");
    reveal_strlit("sha512:");
    let end = match feed.sha512 {
        Some(digest) => feed_line("sha512:"@, digest),
        None => Seq::empty(),
    };
    let from_exe = feed_line("exe:"@, feed.exe) + end;
    let from_version = feed_line("version:"@, feed.version) + from_exe;
    lemma_written_line("build_id:"@, digits, from_version);
    lemma_written_line("version:"@, feed.version, from_exe);
    lemma_written_line("exe:"@, feed.exe, end);
    let l1 = "build_id:"@ + seq![' '] + digits;
    let l2 = "version:"@ + seq![' '] + feed.version;
    let l3 = "exe:"@ + seq![' '] + feed.exe;
    let none = Seq::<Seq<char>>::empty();
    lemma_one_more_line(none, l1);
    lemma_one_more_line(none.push(l1), l2);
    lemma_one_more_line(none.push(l1).push(l2), l3);
    let three = none.push(l1).push(l2).push(l3);
    let all = line_seq(written_feed(feed));
    match feed.sha512 {
        Some(digest) => {
            lemma_written_line("sha512:"@, digest, Seq::empty());
            let l4 = "sha512:"@ + seq![' '] + digest;
            lemma_one_more_line(three, l4);
            assert(feed_line("sha512:"@, digest) + Seq::<char>::empty() =~= end);
            assert(line_seq(end) =~= none.push(l4));
            assert(all =~= three.push(l4));
        },
        None => {
            assert(line_seq(end) =~= none);
            assert(all =~= three);
        },
    }
}

/// What one more line at the end changes.
proof fn lemma_one_more_line(lines: Seq<Seq<char>>, line: Seq<char>)
    ensures
        ({
            let more = lines.push(line);
            let text = trimmed(line);
            &&& forall|key: Seq<char>|
                begins_with(text, key) ==> #[trigger] last_value(more, key) == Some(
                    unquoted(text.skip(key.len() as int)),
                )
            &&& forall|key: Seq<char>|
                begins_with(text, key) && unquoted(text.skip(key.len() as int)).len() > 0
                    ==> #[trigger] last_filled_value(more, key) == Some(
                    unquoted(text.skip(key.len() as int)),
                )
            &&& forall|key: Seq<char>|
                !begins_with(text, key) ==> #[trigger] last_value(more, key) == last_value(
                    lines,
                    key,
                )
            &&& forall|key: Seq<char>|
                !begins_with(text, key) ==> #[trigger] last_filled_value(more, key)
                    == last_filled_value(lines, key)
            &&& begins_with(text, "build_id:"@) ==> text[0] == 'b'
            &&& begins_with(text, "version:"@) ==> text[0] == 'v'
            &&& begins_with(text, "exe:"@) ==> text[0] == 'e'
            &&& begins_with(text, "sha512:"@) ==> text[0] == 's'
        }),
{
    assert(lines.push(line).drop_last() =~= lines);
    lemma_keys_exclude_each_other(trimmed(line));
}

/// A value comes without the white space and the quotes around it, whatever stands inside.
pub proof fn law_values_come_without_quotes(
    before: Seq<char>,
    singles: nat,
    doubles: nat,
    core: Seq<char>,
    more_doubles: nat,
    more_singles: nat,
    after: Seq<char>,
)
    requires
        forall|i: int| 0 <= i < before.len() ==> is_white_space(#[trigger] before[i]),
        forall|i: int| 0 <= i < after.len() ==> is_white_space(#[trigger] after[i]),
        core.len() > 0 && is_plain_end(core[0]) && is_plain_end(core.last()),
    ensures
        unquoted(
            before + (Seq::new(singles, |i: int| '\'') + (Seq::new(doubles, |i: int| '"') + core
                + Seq::new(more_doubles, |i: int| '"')) + Seq::new(more_singles, |i: int| '\''))
                + after,
        ) == core,
{
    let inner = Seq::new(doubles, |i: int| '"') + core + Seq::new(more_doubles, |i: int| '"');
    let outer = Seq::new(singles, |i: int| '\'') + inner + Seq::new(more_singles, |i: int| '\'');
    assert(inner[0] == '"' || inner[0] == core[0]);
    assert(inner.last() == '"' || inner.last() == core.last());
    assert(outer[0] == '\'' || outer[0] == inner[0]);
    assert(outer.last() == '\'' || outer.last() == inner.last());
    law_white_space_around_is_trimmed(before, outer, after);
    law_marks_around_are_trimmed(singles, inner, more_singles, '\'');
    law_marks_around_are_trimmed(doubles, core, more_doubles, '"');
}

/// The last line with a key counts, with what follows the key; a line without the key changes
/// nothing. An empty digest changes nothing either.
pub proof fn law_last_line_of_a_key_counts(
    lines: Seq<Seq<char>>,
    before: Seq<char>,
    line: Seq<char>,
    after: Seq<char>,
    key: Seq<char>,
    value: Seq<char>,
)
    requires
        forall|i: int| 0 <= i < before.len() ==> is_white_space(#[trigger] before[i]),
        forall|i: int| 0 <= i < after.len() ==> is_white_space(#[trigger] after[i]),
        line.len() > 0 ==> !is_white_space(line[0]) && !is_white_space(line.last()),
    ensures
        ({
            let more = lines.push(before + line + after);
            &&& line == key + value ==> last_value(more, key) == Some(unquoted(value))
            &&& line == key + value && unquoted(value).len() > 0 ==> last_filled_value(more, key)
                == Some(unquoted(value))
            &&& line == key + value && unquoted(value).len() == 0 ==> last_filled_value(more, key)
                == last_filled_value(lines, key)
            &&& (forall|rest: Seq<char>| line != #[trigger] (key + rest)) ==> last_value(more, key)
                == last_value(lines, key) && last_filled_value(more, key) == last_filled_value(
                lines,
                key,
            )
            &&& last_value(Seq::empty(), key) is None
            &&& last_filled_value(Seq::empty(), key) is None
        }),
{
    let full = before + line + after;
    let more = lines.push(full);
    assert(more.drop_last() =~= lines);
    assert(more.last() == full);
    law_white_space_around_is_trimmed(before, line, after);
    law_beginnings_and_endings(line, key);
    if line == key + value {
        assert(line == (key + value));
        assert(line.skip(key.len() as int) =~= value);
    }
}

/// A feed offers a build exactly where it names a program and a number as its build id, and what it
/// offers is what its lines say.
pub proof fn law_feed_offers_what_its_lines_say(text: Seq<char>, id: Seq<char>, exe: Seq<char>, n: nat)
    requires
        n <= u64::MAX,
    ensures
        ({
            let lines = line_seq(text);
            &&& last_value(lines, "build_id:"@) is None ==> fork_feed(text) is None
            &&& last_value(lines, "exe:"@) is None ==> fork_feed(text) is None
            &&& last_value(lines, "build_id:"@) == Some(decimal(n)) && last_value(lines, "exe:"@)
                == Some(exe) ==> (fork_feed(text) matches Some(feed) && feed.build_id == n
                && feed.exe == exe && feed.sha512 == last_filled_value(lines, "sha512:"@) && (
            match last_value(lines, "version:"@) {
                Some(version) => feed.version == version,
                None => feed.version.len() == 0,
            }))
            &&& last_value(lines, "build_id:"@) == Some(id) && parsed(id, 10, u64::MAX as int)
                is None ==> fork_feed(text) is None
        }),
{
    law_decimal_parses_back(n, u64::MAX as int);
}

/// The number of this build is what the text says that was set when it was made, zero where that is
/// no number of 64 bits.
pub proof fn law_build_is_what_was_set(n: nat, zeros: nat, s: Seq<char>, i: int)
    requires
        0 <= i < s.len() && !('0' <= s[i] <= '9') && (i > 0 || s[i] != '+'),
    ensures
        build_made(Seq::new(zeros, |i: int| '0') + decimal(n)) == (if n <= u64::MAX {
            n as int
        } else {
            0
        }),
        build_made(s) == 0,
        build_made(Seq::empty()) == 0,
{
    law_numerals_are_read(n, zeros, u64::MAX as int);
    law_other_texts_are_no_numerals(s, i, u64::MAX as int);
    law_other_texts_are_no_numerals(Seq::empty(), 0, u64::MAX as int);
}

} // verus!
