//! Text as sequences of characters: trimming, splitting, searching and numerals.

use vstd::prelude::*;
use vstd::slice::slice_subrange;
use vstd::string::*;

verus! {

/// The characters of `text`, one by one.
pub fn chars_of(text: &str) -> (chars: Vec<char>)
    ensures
        chars@ == text@,
{
    let mut chars: Vec<char> = Vec::new();
    for c in iter: text.chars()
        invariant
            chars@ == text@.take(iter.index()),
            iter.seq() == text@,
    {
        assert(text@.take(iter.index() + 1) =~= text@.take(iter.index()).push(c));
        chars.push(c);
    }
    assert(text@.take(text@.len() as int) =~= text@);
    chars
}

/// The string that holds `chars`.
pub fn string_of(chars: &[char]) -> (text: String)
    ensures
        text@ == chars@,
{
    let mut text = String::new();
    for i in 0..chars.len()
        invariant
            text@ == chars@.take(i as int),
    {
        assert(chars@.take(i as int + 1) =~= chars@.take(i as int).push(chars@[i as int]));
        text.push(chars[i]);
    }
    assert(chars@.take(chars@.len() as int) =~= chars@);
    text
}

/// `a`, then `b`.
pub fn glue(a: &str, b: &str) -> (text: String)
    ensures
        text@ == a@ + b@,
{
    let mut text = a.to_owned();
    text.append(b);
    text
}

/// `a`, then `b`, then `c`.
pub fn glue3(a: &str, b: &str, c: &str) -> (text: String)
    ensures
        text@ == a@ + b@ + c@,
{
    let mut text = a.to_owned();
    text.append(b);
    text.append(c);
    text
}

/// Whether the two texts hold the same characters.
pub fn same_text(a: &str, b: &str) -> (same: bool)
    ensures
        same == (a@ == b@),
{
    let left = chars_of(a);
    let right = chars_of(b);
    same_chars(left.as_slice(), right.as_slice())
}

/// Whether the two slices hold the same characters.
pub fn same_chars(a: &[char], b: &[char]) -> (same: bool)
    ensures
        same == (a@ == b@),
{
    if a.len() != b.len() {
        return false;
    }
    for i in 0..a.len()
        invariant
            a@.len() == b@.len(),
            a@.take(i as int) =~= b@.take(i as int),
    {
        if a[i] != b[i] {
            assert(a@[i as int] != b@[i as int]);
            return false;
        }
        assert(a@.take(i as int + 1) =~= a@.take(i as int).push(a@[i as int]));
        assert(b@.take(i as int + 1) =~= b@.take(i as int).push(b@[i as int]));
    }
    assert(a@.take(a@.len() as int) =~= a@);
    assert(b@.take(a@.len() as int) =~= b@);
    true
}

// ---------------------------------------------------------------------------------------------
// Classes of characters
// ---------------------------------------------------------------------------------------------

/// The characters with the Unicode property White_Space.
pub open spec fn is_white_space(c: char) -> bool {
    ||| '\u{9}' <= c <= '\u{d}'
    ||| c == ' '
    ||| c == '\u{85}'
    ||| c == '\u{a0}'
    ||| c == '\u{1680}'
    ||| '\u{2000}' <= c <= '\u{200a}'
    ||| c == '\u{2028}'
    ||| c == '\u{2029}'
    ||| c == '\u{202f}'
    ||| c == '\u{205f}'
    ||| c == '\u{3000}'
}

/// Whether `c` is white space.
pub fn white_space(c: char) -> (yes: bool)
    ensures
        yes == is_white_space(c),
{
    ('\u{9}' <= c && c <= '\u{d}') || c == ' ' || c == '\u{85}' || c == '\u{a0}' || c
        == '\u{1680}' || ('\u{2000}' <= c && c <= '\u{200a}') || c == '\u{2028}' || c
        == '\u{2029}' || c == '\u{202f}' || c == '\u{205f}' || c == '\u{3000}'
}

/// The ASCII digits.
pub open spec fn is_digit(c: char) -> bool {
    '0' <= c <= '9'
}

/// Whether `c` is an ASCII digit.
pub fn digit(c: char) -> (yes: bool)
    ensures
        yes == is_digit(c),
{
    '0' <= c && c <= '9'
}

/// The ASCII letters and digits.
pub open spec fn is_ascii_alphanumeric(c: char) -> bool {
    is_digit(c) || 'a' <= c <= 'z' || 'A' <= c <= 'Z'
}

/// Whether `c` is an ASCII letter or digit.
pub fn ascii_alphanumeric(c: char) -> (yes: bool)
    ensures
        yes == is_ascii_alphanumeric(c),
{
    digit(c) || ('a' <= c && c <= 'z') || ('A' <= c && c <= 'Z')
}

/// An ASCII capital letter becomes its small letter, and every other character stays.
pub open spec fn ascii_lower(c: char) -> char {
    if 'A' <= c <= 'Z' {
        (c as u32 + 32) as char
    } else {
        c
    }
}

/// `c` in ASCII lower case.
pub fn lower(c: char) -> (small: char)
    ensures
        small == ascii_lower(c),
{
    if 'A' <= c && c <= 'Z' {
        let code: u8 = c as u8;
        (code + 32) as char
    } else {
        c
    }
}

/// An ASCII small letter becomes its capital letter, and every other character stays.
pub open spec fn ascii_upper(c: char) -> char {
    if 'a' <= c <= 'z' {
        (c as u32 - 32) as char
    } else {
        c
    }
}

// ---------------------------------------------------------------------------------------------
// Trimming
// ---------------------------------------------------------------------------------------------

/// White space, as a predicate.
pub open spec fn white() -> spec_fn(char) -> bool {
    |c: char| is_white_space(c)
}

/// One character, as a predicate.
pub open spec fn only(mark: char) -> spec_fn(char) -> bool {
    |c: char| c == mark
}

/// `s` without the characters at its front for which `p` holds.
pub open spec fn trim_front(s: Seq<char>, p: spec_fn(char) -> bool) -> Seq<char>
    decreases s.len(),
{
    if s.len() > 0 && p(s[0]) {
        trim_front(s.drop_first(), p)
    } else {
        s
    }
}

/// `s` without the characters at its back for which `p` holds.
pub open spec fn trim_back(s: Seq<char>, p: spec_fn(char) -> bool) -> Seq<char>
    decreases s.len(),
{
    if s.len() > 0 && p(s.last()) {
        trim_back(s.drop_last(), p)
    } else {
        s
    }
}

/// `s` without the characters at either end for which `p` holds.
pub open spec fn trim_both(s: Seq<char>, p: spec_fn(char) -> bool) -> Seq<char> {
    trim_back(trim_front(s, p), p)
}

/// `s` without white space at either end.
pub open spec fn trimmed(s: Seq<char>) -> Seq<char> {
    trim_both(s, white())
}

/// `s` without white space at either end.
pub fn trim(s: &[char]) -> (inner: &[char])
    ensures
        inner@ == trimmed(s@),
{
    let mut low: usize = 0;
    assert(s@.skip(0) =~= s@);
    while low < s.len() && white_space(s[low])
        invariant
            low <= s@.len(),
            trim_front(s@, white()) == trim_front(s@.skip(low as int), white()),
        decreases s@.len() - low,
    {
        assert(s@.skip(low as int).drop_first() =~= s@.skip(low as int + 1));
        low = low + 1;
    }
    let rest = slice_subrange(s, low, s.len());
    assert(rest@ =~= s@.skip(low as int));
    assert(rest@ == trim_front(s@, white()));
    let mut high: usize = rest.len();
    assert(rest@.take(high as int) =~= rest@);
    while high > 0 && white_space(rest[high - 1])
        invariant
            high <= rest@.len(),
            trim_back(rest@, white()) == trim_back(rest@.take(high as int), white()),
        decreases high,
    {
        assert(rest@.take(high as int).drop_last() =~= rest@.take(high as int - 1));
        high = high - 1;
    }
    let inner = slice_subrange(rest, 0, high);
    assert(inner@ =~= rest@.take(high as int));
    inner
}

/// `s` without `mark` at its back.
pub fn trim_end_char(s: &[char], mark: char) -> (inner: &[char])
    ensures
        inner@ == trim_back(s@, only(mark)),
{
    let mut high: usize = s.len();
    assert(s@.take(high as int) =~= s@);
    while high > 0 && s[high - 1] == mark
        invariant
            high <= s@.len(),
            trim_back(s@, only(mark)) == trim_back(s@.take(high as int), only(mark)),
        decreases high,
    {
        assert(s@.take(high as int).drop_last() =~= s@.take(high as int - 1));
        high = high - 1;
    }
    let inner = slice_subrange(s, 0, high);
    assert(inner@ =~= s@.take(high as int));
    inner
}

/// `s` without `mark` at either end.
pub fn trim_char(s: &[char], mark: char) -> (inner: &[char])
    ensures
        inner@ == trim_both(s@, only(mark)),
{
    let mut low: usize = 0;
    assert(s@.skip(0) =~= s@);
    while low < s.len() && s[low] == mark
        invariant
            low <= s@.len(),
            trim_front(s@, only(mark)) == trim_front(s@.skip(low as int), only(mark)),
        decreases s@.len() - low,
    {
        assert(s@.skip(low as int).drop_first() =~= s@.skip(low as int + 1));
        low = low + 1;
    }
    let rest = slice_subrange(s, low, s.len());
    assert(rest@ =~= s@.skip(low as int));
    trim_end_char(rest, mark)
}

/// `s` without `suffix` at its back, as often as it stands there.
pub open spec fn trim_suffix(s: Seq<char>, suffix: Seq<char>) -> Seq<char>
    decreases s.len(),
{
    if suffix.len() > 0 && ends_in(s, suffix) {
        trim_suffix(s.take(s.len() - suffix.len()), suffix)
    } else {
        s
    }
}

/// `s` without `suffix` at its back, as often as it stands there.
pub fn trim_end_text<'a>(s: &'a [char], suffix: &[char]) -> (inner: &'a [char])
    ensures
        inner@ == trim_suffix(s@, suffix@),
{
    let mut high: usize = s.len();
    assert(s@.take(high as int) =~= s@);
    while suffix.len() > 0 && ends_with(slice_subrange(s, 0, high), suffix)
        invariant
            high <= s@.len(),
            trim_suffix(s@, suffix@) == trim_suffix(s@.take(high as int), suffix@),
        decreases high,
    {
        assert(s@.subrange(0, high as int) =~= s@.take(high as int));
        assert(s@.take(high as int).take(high as int - suffix@.len()) =~= s@.take(
            high as int - suffix@.len(),
        ));
        high = high - suffix.len();
    }
    assert(s@.subrange(0, high as int) =~= s@.take(high as int));
    slice_subrange(s, 0, high)
}

// ---------------------------------------------------------------------------------------------
// Searching
// ---------------------------------------------------------------------------------------------

/// `part` stands in `s` from index `i` on.
pub open spec fn occurs_at(s: Seq<char>, part: Seq<char>, i: int) -> bool {
    &&& 0 <= i
    &&& i + part.len() <= s.len()
    &&& s.subrange(i, i + part.len()) == part
}

/// `part` stands somewhere in `s`.
pub open spec fn contains(s: Seq<char>, part: Seq<char>) -> bool {
    exists|i: int| occurs_at(s, part, i)
}

/// `s` begins with `prefix`.
pub open spec fn begins_with(s: Seq<char>, prefix: Seq<char>) -> bool {
    occurs_at(s, prefix, 0)
}

/// `s` ends in `suffix`.
pub open spec fn ends_in(s: Seq<char>, suffix: Seq<char>) -> bool {
    occurs_at(s, suffix, s.len() - suffix.len())
}

/// Where a part stands, its characters stand.
pub proof fn lemma_occurs_at(s: Seq<char>, part: Seq<char>, i: int, j: int)
    requires
        occurs_at(s, part, i),
        0 <= j < part.len(),
    ensures
        s[i + j] == part[j],
{
    assert(s.subrange(i, i + part.len())[j] == part[j]);
}

/// The first index from `from` on at which `part` stands in `s`.
pub open spec fn first_at(s: Seq<char>, part: Seq<char>, from: int) -> Option<int>
    decreases s.len() + 1 - from,
{
    if from + part.len() > s.len() {
        None
    } else if occurs_at(s, part, from) {
        Some(from)
    } else {
        first_at(s, part, from + 1)
    }
}

/// Whether `part` stands in `s` from index `i` on.
fn stands_at(s: &[char], part: &[char], i: usize) -> (yes: bool)
    ensures
        yes == occurs_at(s@, part@, i as int),
{
    if i > s.len() || part.len() > s.len() - i {
        false
    } else {
        same_chars(slice_subrange(s, i, i + part.len()), part)
    }
}

/// The first index at which `part` stands in `s`.
pub fn find(s: &[char], part: &[char]) -> (at: Option<usize>)
    ensures
        (match at {
            Some(i) => Some(i as int),
            None => None,
        }) == first_at(s@, part@, 0),
        at matches Some(i) ==> occurs_at(s@, part@, i as int),
        at is None ==> !contains(s@, part@),
{
    let mut i: usize = 0;
    while i <= s.len() && part.len() <= s.len() - i
        invariant
            i <= s@.len() + 1,
            first_at(s@, part@, 0) == first_at(s@, part@, i as int),
            forall|j: int| j < i ==> !occurs_at(s@, part@, j),
        decreases s@.len() + 1 - i,
    {
        if stands_at(s, part, i) {
            return Some(i);
        }
        if i == s.len() {
            assert(first_at(s@, part@, i as int + 1) is None);
            assert forall|j: int| !occurs_at(s@, part@, j) by {
                if j > i {
                    assert(j + part@.len() > s@.len());
                }
            }
            return None;
        }
        i = i + 1;
    }
    assert forall|j: int| !occurs_at(s@, part@, j) by {
        if j >= i {
            assert(j + part@.len() > s@.len());
        }
    }
    None
}

/// Whether `part` stands somewhere in `s`.
pub fn has(s: &[char], part: &[char]) -> (yes: bool)
    ensures
        yes == contains(s@, part@),
{
    match find(s, part) {
        Some(i) => true,
        None => false,
    }
}

/// Whether `mark` is among the characters.
pub fn has_char(chars: &[char], mark: char) -> (yes: bool)
    ensures
        yes == chars@.contains(mark),
{
    for i in 0..chars.len()
        invariant
            forall|j: int| 0 <= j < i ==> #[trigger] chars@[j] != mark,
    {
        if chars[i] == mark {
            return true;
        }
    }
    false
}

/// Whether `s` begins with `prefix`.
pub fn starts_with(s: &[char], prefix: &[char]) -> (yes: bool)
    ensures
        yes == begins_with(s@, prefix@),
{
    stands_at(s, prefix, 0)
}

/// Whether `s` ends in `suffix`.
pub fn ends_with(s: &[char], suffix: &[char]) -> (yes: bool)
    ensures
        yes == ends_in(s@, suffix@),
{
    if suffix.len() > s.len() {
        false
    } else {
        stands_at(s, suffix, s.len() - suffix.len())
    }
}

// ---------------------------------------------------------------------------------------------
// Splitting and replacing
// ---------------------------------------------------------------------------------------------

/// The characters of each slice.
pub open spec fn pieces(parts: Seq<&[char]>) -> Seq<Seq<char>> {
    parts.map_values(|part: &[char]| part@)
}

/// The parts of `s` between the places where `mark` stands, looked for from the left.
pub open spec fn split(s: Seq<char>, mark: Seq<char>) -> Seq<Seq<char>>
    decreases s.len(),
{
    if mark.len() == 0 {
        seq![s]
    } else {
        match first_at(s, mark, 0) {
            Some(i) => if 0 <= i && i + mark.len() <= s.len() {
                seq![s.take(i)] + split(s.skip(i + mark.len()), mark)
            } else {
                seq![s]
            },
            None => seq![s],
        }
    }
}

/// The parts of `s` between the places where `mark` stands, looked for from the left.
pub fn split_at_each<'a>(s: &'a [char], mark: &[char]) -> (parts: Vec<&'a [char]>)
    requires
        mark@.len() > 0,
    ensures
        pieces(parts@) == split(s@, mark@),
        parts@.len() > 0,
{
    let mut parts: Vec<&'a [char]> = Vec::new();
    let mut rest: &'a [char] = s;
    assert(pieces(parts@) + split(rest@, mark@) =~= split(s@, mark@));
    loop
        invariant
            mark@.len() > 0,
            pieces(parts@) + split(rest@, mark@) == split(s@, mark@),
        decreases rest@.len(),
    {
        let ghost before = pieces(parts@);
        match find(rest, mark) {
            Some(i) => {
                let part = slice_subrange(rest, 0, i);
                let end: usize = rest.len();
                assert(occurs_at(rest@, mark@, i as int));
                let next = slice_subrange(rest, i + mark.len(), end);
                assert(part@ =~= rest@.take(i as int));
                assert(next@ =~= rest@.skip(i as int + mark@.len()));
                parts.push(part);
                assert(pieces(parts@) =~= before.push(part@));
                assert(pieces(parts@) + split(next@, mark@) =~= before + split(rest@, mark@));
                rest = next;
            },
            None => {
                parts.push(rest);
                assert(pieces(parts@) =~= before + split(rest@, mark@));
                return parts;
            },
        }
    }
}

/// `s` without one carriage return at its back.
pub open spec fn without_return(s: Seq<char>) -> Seq<char> {
    if s.len() > 0 && s.last() == '\r' {
        s.drop_last()
    } else {
        s
    }
}

/// The lines of `s`: each ends at a line feed, which is left out together with a carriage return
/// right before it. What follows the last line feed is a line if it is not empty.
pub open spec fn line_seq(s: Seq<char>) -> Seq<Seq<char>>
    decreases s.len(),
{
    if s.len() == 0 {
        Seq::empty()
    } else {
        match first_at(s, seq!['\n'], 0) {
            Some(i) => if 0 <= i < s.len() {
                seq![without_return(s.take(i))] + line_seq(s.skip(i + 1))
            } else {
                seq![s]
            },
            None => seq![s],
        }
    }
}

/// The lines of `s`.
pub fn lines<'a>(s: &'a [char]) -> (parts: Vec<&'a [char]>)
    ensures
        pieces(parts@) == line_seq(s@),
{
    let mut parts: Vec<&'a [char]> = Vec::new();
    let mut rest: &'a [char] = s;
    let feed: [char; 1] = ['\n'];
    assert(feed@ =~= seq!['\n']);
    assert(pieces(parts@) + line_seq(rest@) =~= line_seq(s@));
    while rest.len() > 0
        invariant
            feed@ == seq!['\n'],
            pieces(parts@) + line_seq(rest@) == line_seq(s@),
        decreases rest@.len(),
    {
        let ghost before = pieces(parts@);
        match find(rest, &feed) {
            Some(i) => {
                let line = slice_subrange(rest, 0, i);
                let next = slice_subrange(rest, i + 1, rest.len());
                assert(line@ =~= rest@.take(i as int));
                assert(next@ =~= rest@.skip(i as int + 1));
                if line.len() > 0 && line[line.len() - 1] == '\r' {
                    let bare = slice_subrange(line, 0, line.len() - 1);
                    assert(bare@ =~= without_return(line@));
                    parts.push(bare);
                } else {
                    parts.push(line);
                }
                assert(pieces(parts@) =~= before.push(without_return(line@)));
                assert(pieces(parts@) + line_seq(next@) =~= before + line_seq(rest@));
                rest = next;
            },
            None => {
                parts.push(rest);
                assert(pieces(parts@) =~= before + line_seq(rest@));
                return parts;
            },
        }
    }
    assert(pieces(parts@) + line_seq(rest@) =~= pieces(parts@));
    parts
}

/// The first place is the first.
proof fn lemma_first_at(s: Seq<char>, part: Seq<char>, from: int, i: int)
    requires
        0 <= from <= i,
        occurs_at(s, part, i),
        forall|j: int| from <= j < i ==> !occurs_at(s, part, j),
    ensures
        first_at(s, part, from) == Some(i),
    decreases i - from,
{
    if from < i {
        lemma_first_at(s, part, from + 1, i);
    }
}

/// A line that is closed by a line feed is the first line.
pub proof fn lemma_first_line(line: Seq<char>, rest: Seq<char>)
    requires
        !line.contains('\n'),
        line.len() > 0 ==> line.last() != '\r',
    ensures
        line_seq(line + seq!['\n'] + rest) == seq![line] + line_seq(rest),
{
    let s = line + seq!['\n'] + rest;
    let feed = seq!['\n'];
    let i = line.len() as int;
    assert(s.subrange(i, i + 1) =~= feed);
    assert forall|j: int| 0 <= j < i implies !occurs_at(s, feed, j) by {
        if occurs_at(s, feed, j) {
            lemma_occurs_at(s, feed, j, 0);
            assert(line[j] == '\n');
        }
    }
    lemma_first_at(s, feed, 0, i);
    assert(s.take(i) =~= line);
    assert(s.skip(i + 1) =~= rest);
}

/// What stands before the first mark is the first part.
pub proof fn lemma_first_part(part: Seq<char>, mark: char, rest: Seq<char>)
    requires
        !part.contains(mark),
    ensures
        split(part + seq![mark] + rest, seq![mark]) == seq![part] + split(rest, seq![mark]),
{
    let s = part + seq![mark] + rest;
    let i = part.len() as int;
    assert(s.subrange(i, i + 1) =~= seq![mark]);
    assert forall|j: int| 0 <= j < i implies !occurs_at(s, seq![mark], j) by {
        if occurs_at(s, seq![mark], j) {
            lemma_occurs_at(s, seq![mark], j, 0);
            assert(part[j] == mark);
        }
    }
    lemma_first_at(s, seq![mark], 0, i);
    assert(s.take(i) =~= part);
    assert(s.skip(i + 1) =~= rest);
}

/// A mark that does not stand in a text is not found.
proof fn lemma_not_found(s: Seq<char>, mark: char, from: int)
    requires
        !s.contains(mark),
        0 <= from,
    ensures
        first_at(s, seq![mark], from) is None,
    decreases s.len() + 1 - from,
{
    if from + 1 <= s.len() {
        if occurs_at(s, seq![mark], from) {
            lemma_occurs_at(s, seq![mark], from, 0);
            assert(s[from] == mark);
        }
        lemma_not_found(s, mark, from + 1);
    }
}

/// A text without a mark is one part.
pub proof fn lemma_only_part(part: Seq<char>, mark: char)
    requires
        !part.contains(mark),
    ensures
        split(part, seq![mark]) == seq![part],
{
    lemma_not_found(part, mark, 0);
}

/// `s` with `by` in the place of each `mark`.
pub open spec fn replaced(s: Seq<char>, mark: char, by: Seq<char>) -> Seq<char>
    decreases s.len(),
{
    if s.len() == 0 {
        Seq::empty()
    } else {
        replaced(s.drop_last(), mark, by) + (if s.last() == mark {
            by
        } else {
            seq![s.last()]
        })
    }
}

/// Replacing goes through the parts of a text one by one.
pub proof fn lemma_replaced_apart(s: Seq<char>, t: Seq<char>, mark: char, by: Seq<char>)
    ensures
        replaced(s + t, mark, by) == replaced(s, mark, by) + replaced(t, mark, by),
    decreases t.len(),
{
    if t.len() == 0 {
        assert(s + t =~= s);
        assert(replaced(s, mark, by) + Seq::empty() =~= replaced(s, mark, by));
    } else {
        assert((s + t).drop_last() =~= s + t.drop_last());
        assert((s + t).last() == t.last());
        lemma_replaced_apart(s, t.drop_last(), mark, by);
        assert(replaced(s + t, mark, by) =~= replaced(s, mark, by) + replaced(t, mark, by));
    }
}

/// Nothing is replaced in a text without the mark.
pub proof fn lemma_replaced_nowhere(s: Seq<char>, mark: char, by: Seq<char>)
    requires
        !s.contains(mark),
    ensures
        replaced(s, mark, by) == s,
    decreases s.len(),
{
    if s.len() > 0 {
        assert(s[s.len() - 1] == s.last());
        assert forall|i: int| 0 <= i < s.drop_last().len() implies s.drop_last()[i] != mark by {
            assert(s[i] == s.drop_last()[i]);
        }
        lemma_replaced_nowhere(s.drop_last(), mark, by);
    }
    assert(replaced(s, mark, by) =~= s);
}

/// `s` with `by` in the place of each `mark`.
pub fn replace(s: &[char], mark: char, by: &[char]) -> (out: Vec<char>)
    ensures
        out@ == replaced(s@, mark, by@),
{
    let mut out: Vec<char> = Vec::new();
    for i in 0..s.len()
        invariant
            out@ == replaced(s@.take(i as int), mark, by@),
    {
        assert(s@.take(i as int + 1).drop_last() =~= s@.take(i as int));
        if s[i] == mark {
            push_all(&mut out, by);
        } else {
            out.push(s[i]);
            assert(out@ =~= replaced(s@.take(i as int), mark, by@) + seq![s@[i as int]]);
        }
    }
    assert(s@.take(s@.len() as int) =~= s@);
    out
}

/// Appends `more` to `out`.
pub fn push_all(out: &mut Vec<char>, more: &[char])
    ensures
        final(out)@ == old(out)@ + more@,
{
    let ghost start = out@;
    for i in 0..more.len()
        invariant
            out@ == start + more@.take(i as int),
    {
        assert(more@.take(i as int + 1) =~= more@.take(i as int).push(more@[i as int]));
        out.push(more[i]);
        assert(out@ =~= start + more@.take(i as int + 1));
    }
    assert(more@.take(more@.len() as int) =~= more@);
}

// ---------------------------------------------------------------------------------------------
// Numerals
// ---------------------------------------------------------------------------------------------

/// The value of a digit in bases up to 36, letters of either case standing for ten and more.
pub open spec fn digit_value(c: char) -> int {
    if '0' <= c <= '9' {
        c as int - '0' as int
    } else if 'a' <= c <= 'z' {
        c as int - 'a' as int + 10
    } else if 'A' <= c <= 'Z' {
        c as int - 'A' as int + 10
    } else {
        36
    }
}

/// Every character of `s` is a digit of the base `radix`.
pub open spec fn all_digits(s: Seq<char>, radix: int) -> bool {
    forall|i: int| 0 <= i < s.len() ==> digit_value(#[trigger] s[i]) < radix
}

/// The number that the digits `s` stand for in the base `radix`.
pub open spec fn digits_value(s: Seq<char>, radix: int) -> int
    decreases s.len(),
{
    if s.len() == 0 {
        0
    } else {
        digits_value(s.drop_last(), radix) * radix + digit_value(s.last())
    }
}

/// The digits of a numeral that may have a plus sign before them.
pub open spec fn unsigned_part(s: Seq<char>) -> Seq<char> {
    if s.len() > 0 && s[0] == '+' {
        s.drop_first()
    } else {
        s
    }
}

/// The number up to `most` that `s` stands for: one digit or more, with or without a plus sign
/// before them.
pub open spec fn parsed(s: Seq<char>, radix: int, most: int) -> Option<int> {
    let digits = unsigned_part(s);
    if digits.len() > 0 && all_digits(digits, radix) && digits_value(digits, radix) <= most {
        Some(digits_value(digits, radix))
    } else {
        None
    }
}

/// More digits do not make the number smaller.
proof fn lemma_value_grows(s: Seq<char>, radix: int, i: int)
    requires
        radix >= 1,
        all_digits(s, radix),
        0 <= i <= s.len(),
    ensures
        0 <= digits_value(s.take(i), radix) <= digits_value(s, radix),
    decreases s.len(),
{
    if s.len() > 0 {
        if i == s.len() {
            assert(s.take(i) =~= s);
            lemma_value_grows(s.drop_last(), radix, 0);
        } else {
            lemma_value_grows(s.drop_last(), radix, i);
            assert(s.drop_last().take(i) =~= s.take(i));
        }
        lemma_value_grows(s.drop_last(), radix, s.len() - 1);
        assert(s.drop_last().take(s.len() - 1) =~= s.drop_last());
        let v = digits_value(s.drop_last(), radix);
        assert(v * radix >= v) by (nonlinear_arith)
            requires
                v >= 0,
                radix >= 1,
        ;
    }
}

/// The value of a digit, 36 for a character that is none.
fn digit_of(c: char) -> (value: u64)
    ensures
        value == digit_value(c),
{
    if '0' <= c && c <= '9' {
        c as u64 - '0' as u64
    } else if 'a' <= c && c <= 'z' {
        c as u64 - 'a' as u64 + 10
    } else if 'A' <= c && c <= 'Z' {
        c as u64 - 'A' as u64 + 10
    } else {
        36
    }
}

/// The number up to `most` that `s` stands for in the base `radix`.
pub fn parse(s: &[char], radix: u64, most: u64) -> (number: Option<u64>)
    requires
        2 <= radix <= 36,
    ensures
        (match number {
            Some(n) => Some(n as int),
            None => None,
        }) == parsed(s@, radix as int, most as int),
{
    let digits = if s.len() > 0 && s[0] == '+' {
        slice_subrange(s, 1, s.len())
    } else {
        s
    };
    assert(digits@ =~= unsigned_part(s@));
    if digits.len() == 0 {
        return None;
    }
    let mut value: u64 = 0;
    for i in 0..digits.len()
        invariant
            digits@ == unsigned_part(s@),
            digits@.len() > 0,
            2 <= radix <= 36,
            value <= most,
            value == digits_value(digits@.take(i as int), radix as int),
            forall|j: int| 0 <= j < i ==> digit_value(#[trigger] digits@[j]) < radix,
    {
        let d: u64 = digit_of(digits[i]);
        if d >= radix {
            assert(!all_digits(digits@, radix as int));
            return None;
        }
        assert(digits@.take(i as int + 1).drop_last() =~= digits@.take(i as int));
        assert(value * radix <= 0xffff_ffff_ffff_ffff * 36) by (nonlinear_arith)
            requires
                value <= 0xffff_ffff_ffff_ffff,
                radix <= 36,
        ;
        let next: u128 = (value as u128) * (radix as u128) + (d as u128);
        if next > most as u128 {
            proof {
                if all_digits(digits@, radix as int) {
                    lemma_value_grows(digits@, radix as int, i as int + 1);
                }
            }
            return None;
        }
        value = next as u64;
    }
    assert(digits@.take(digits@.len() as int) =~= digits@);
    Some(value)
}

/// The digit for a value below ten.
pub open spec fn digit_char(value: int) -> char {
    ('0' as int + value) as char
}

/// The decimal numeral of `n`.
pub open spec fn decimal(n: nat) -> Seq<char>
    decreases n,
{
    if n < 10 {
        seq![digit_char(n as int)]
    } else {
        decimal(n / 10).push(digit_char((n % 10) as int))
    }
}

/// The decimal numeral of `n`.
pub fn decimal_chars(n: u64) -> (chars: Vec<char>)
    ensures
        chars@ == decimal(n as nat),
    decreases n,
{
    let last: char = (48u8 + (n % 10) as u8) as char;
    let mut chars: Vec<char> = if n < 10 {
        Vec::new()
    } else {
        decimal_chars(n / 10)
    };
    chars.push(last);
    assert(chars@ =~= decimal(n as nat));
    chars
}

/// The decimal numeral of `n`.
pub fn decimal_text(n: u64) -> (text: String)
    ensures
        text@ == decimal(n as nat),
{
    let chars = decimal_chars(n);
    string_of(chars.as_slice())
}

/// A number read back from its decimal numeral is the number.
pub proof fn law_decimal_parses_back(n: nat, most: int)
    requires
        n <= most,
    ensures
        parsed(decimal(n), 10, most) == Some(n as int),
{
    lemma_decimal(n);
}

/// A decimal numeral is one ASCII digit or more.
pub proof fn law_decimal_is_digits(n: nat)
    ensures
        decimal(n).len() > 0,
        forall|i: int| 0 <= i < decimal(n).len() ==> is_digit(#[trigger] decimal(n)[i]),
{
    lemma_decimal(n);
}

proof fn lemma_decimal(n: nat)
    ensures
        decimal(n).len() > 0,
        all_digits(decimal(n), 10),
        forall|i: int| 0 <= i < decimal(n).len() ==> is_digit(#[trigger] decimal(n)[i]),
        digits_value(decimal(n), 10) == n,
    decreases n,
{
    let last = digit_char((n % 10) as int);
    assert(is_digit(last) && digit_value(last) == n % 10);
    if n < 10 {
        reveal_with_fuel(digits_value, 2);
        assert(decimal(n).last() == last);
    } else {
        lemma_decimal(n / 10);
        assert(decimal(n).drop_last() =~= decimal(n / 10));
    }
}

// ---------------------------------------------------------------------------------------------
// Laws
// ---------------------------------------------------------------------------------------------

/// Characters at the front for which `p` holds fall away.
pub proof fn lemma_trim_front(a: Seq<char>, rest: Seq<char>, p: spec_fn(char) -> bool)
    requires
        forall|i: int| 0 <= i < a.len() ==> p(#[trigger] a[i]),
    ensures
        trim_front(a + rest, p) == trim_front(rest, p),
    decreases a.len(),
{
    if a.len() == 0 {
        assert(a + rest =~= rest);
    } else {
        assert((a + rest)[0] == a[0]);
        assert((a + rest).drop_first() =~= a.drop_first() + rest);
        assert forall|i: int| 0 <= i < a.drop_first().len() implies p(
            #[trigger] a.drop_first()[i],
        ) by {
            assert(a.drop_first()[i] == a[i + 1]);
        }
        lemma_trim_front(a.drop_first(), rest, p);
    }
}

/// Characters at the back for which `p` holds fall away.
pub proof fn lemma_trim_back(rest: Seq<char>, b: Seq<char>, p: spec_fn(char) -> bool)
    requires
        forall|i: int| 0 <= i < b.len() ==> p(#[trigger] b[i]),
    ensures
        trim_back(rest + b, p) == trim_back(rest, p),
    decreases b.len(),
{
    if b.len() == 0 {
        assert(rest + b =~= rest);
    } else {
        assert((rest + b).last() == b[b.len() - 1]);
        assert((rest + b).drop_last() =~= rest + b.drop_last());
        assert forall|i: int| 0 <= i < b.drop_last().len() implies p(
            #[trigger] b.drop_last()[i],
        ) by {
            assert(b.drop_last()[i] == b[i]);
        }
        lemma_trim_back(rest, b.drop_last(), p);
    }
}

/// What stands between characters for which `p` holds is left, where neither of its ends is such a
/// character.
pub proof fn lemma_trim_both(
    a: Seq<char>,
    inner: Seq<char>,
    b: Seq<char>,
    p: spec_fn(char) -> bool,
)
    requires
        forall|i: int| 0 <= i < a.len() ==> p(#[trigger] a[i]),
        forall|i: int| 0 <= i < b.len() ==> p(#[trigger] b[i]),
        inner.len() > 0 ==> !p(inner[0]) && !p(inner.last()),
    ensures
        trim_both(a + inner + b, p) == inner,
{
    assert(a + inner + b =~= a + (inner + b));
    lemma_trim_front(a, inner + b, p);
    if inner.len() == 0 {
        assert(inner + b =~= b + Seq::<char>::empty());
        lemma_trim_front(b, Seq::empty(), p);
        assert(trim_both(a + inner + b, p) =~= inner);
    } else {
        assert((inner + b)[0] == inner[0]);
        lemma_trim_back(inner, b, p);
    }
}

/// White space around a text falls away, and nothing of the text does.
pub proof fn law_white_space_around_is_trimmed(a: Seq<char>, inner: Seq<char>, b: Seq<char>)
    requires
        forall|i: int| 0 <= i < a.len() ==> is_white_space(#[trigger] a[i]),
        forall|i: int| 0 <= i < b.len() ==> is_white_space(#[trigger] b[i]),
        inner.len() > 0 ==> !is_white_space(inner[0]) && !is_white_space(inner.last()),
    ensures
        trimmed(a + inner + b) == inner,
{
    lemma_trim_both(a, inner, b, white());
}

/// A text with neither white space nor, if it is not empty, an end of white space stays as it is.
pub proof fn lemma_trimmed_already(inner: Seq<char>)
    requires
        inner.len() > 0 ==> !is_white_space(inner[0]) && !is_white_space(inner.last()),
    ensures
        trimmed(inner) == inner,
{
    let none = Seq::<char>::empty();
    lemma_trim_both(none, inner, none, white());
    assert(none + inner + none =~= inner);
}

/// Marks around a text fall away, and nothing of the text does.
pub proof fn law_marks_around_are_trimmed(
    before: nat,
    inner: Seq<char>,
    after: nat,
    mark: char,
)
    requires
        inner.len() > 0 ==> inner[0] != mark && inner.last() != mark,
    ensures
        trim_both(
            Seq::new(before, |i: int| mark) + inner + Seq::new(after, |i: int| mark),
            only(mark),
        ) == inner,
{
    lemma_trim_both(
        Seq::new(before, |i: int| mark),
        inner,
        Seq::new(after, |i: int| mark),
        only(mark),
    );
}

/// Marks at the end of a text fall away, and nothing of the text does.
pub proof fn law_marks_at_the_end_are_trimmed(inner: Seq<char>, after: nat, mark: char)
    requires
        inner.len() > 0 ==> inner.last() != mark,
    ensures
        trim_back(inner + Seq::new(after, |i: int| mark), only(mark)) == inner,
{
    lemma_trim_back(inner, Seq::new(after, |i: int| mark), only(mark));
}

/// A part stands in a text exactly where the text is something, the part, and something.
pub proof fn law_contains_is_to_stand_between(s: Seq<char>, part: Seq<char>)
    ensures
        contains(s, part) <==> exists|a: Seq<char>, b: Seq<char>| s == #[trigger] (a + part + b),
{
    if contains(s, part) {
        let i = choose|i: int| occurs_at(s, part, i);
        let a = s.take(i);
        let b = s.skip(i + part.len());
        assert(s =~= a + part + b) by {
            assert(s.subrange(i, i + part.len()) =~= part);
            assert forall|k: int| 0 <= k < s.len() implies s[k] == (a + part + b)[k] by {
                if i <= k < i + part.len() {
                    assert(s.subrange(i, i + part.len())[k - i] == part[k - i]);
                }
            }
        }
        assert(s == (a + part + b));
    }
    if exists|a: Seq<char>, b: Seq<char>| s == #[trigger] (a + part + b) {
        let (a, b) = choose|a: Seq<char>, b: Seq<char>| s == #[trigger] (a + part + b);
        lemma_stands_between(a, part, b);
    }
}

/// A part stands between what stands before it and behind it.
pub proof fn lemma_stands_between(a: Seq<char>, part: Seq<char>, b: Seq<char>)
    ensures
        contains(a + part + b, part),
        occurs_at(a + part + b, part, a.len() as int),
{
    let s = a + part + b;
    assert(s.subrange(a.len() as int, (a.len() + part.len()) as int) =~= part);
    assert(occurs_at(s, part, a.len() as int));
}

/// A text begins with another exactly where it is that text and something behind it, and ends in
/// another exactly where it is something and that text.
pub proof fn law_beginnings_and_endings(s: Seq<char>, part: Seq<char>)
    ensures
        begins_with(s, part) <==> exists|b: Seq<char>| s == #[trigger] (part + b),
        ends_in(s, part) <==> exists|a: Seq<char>| s == #[trigger] (a + part),
{
    if begins_with(s, part) {
        let b = s.skip(part.len() as int);
        assert forall|k: int| 0 <= k < s.len() implies s[k] == (part + b)[k] by {
            if k < part.len() {
                assert(s.subrange(0, part.len() as int)[k] == part[k]);
            }
        }
        assert(s =~= part + b);
        assert(s == (part + b));
    }
    if exists|b: Seq<char>| s == #[trigger] (part + b) {
        let b = choose|b: Seq<char>| s == #[trigger] (part + b);
        assert(s.subrange(0, part.len() as int) =~= part);
    }
    if ends_in(s, part) {
        let n = s.len() - part.len();
        let a = s.take(n);
        assert forall|k: int| 0 <= k < s.len() implies s[k] == (a + part)[k] by {
            if k >= n {
                assert(s.subrange(n, n + part.len())[k - n] == part[k - n]);
            }
        }
        assert(s =~= a + part);
        assert(s == (a + part));
    }
    if exists|a: Seq<char>| s == #[trigger] (a + part) {
        let a = choose|a: Seq<char>| s == #[trigger] (a + part);
        assert(s.subrange(a.len() as int, (a.len() + part.len()) as int) =~= part);
    }
}

/// The mark does not stand in the text and the mark together before the end of the text.
pub open spec fn is_first_mark(a: Seq<char>, mark: Seq<char>) -> bool {
    forall|j: int|
        0 <= j < a.len() ==> #[trigger] (a + mark).subrange(j, j + mark.len()) != mark
}

/// What stands before the first mark is found, whatever follows the mark.
pub proof fn law_first_mark_is_found(a: Seq<char>, mark: Seq<char>, b: Seq<char>)
    requires
        mark.len() > 0,
        is_first_mark(a, mark),
    ensures
        first_at(a + mark + b, mark, 0) == Some(a.len() as int),
        split(a + mark + b, mark) == seq![a] + split(b, mark),
{
    let s = a + mark + b;
    let i = a.len() as int;
    lemma_stands_between(a, mark, b);
    assert forall|j: int| 0 <= j < i implies !occurs_at(s, mark, j) by {
        assert(s.subrange(j, j + mark.len()) =~= (a + mark).subrange(j, j + mark.len()));
    }
    lemma_first_at(s, mark, 0, i);
    assert(s.take(i) =~= a);
    assert(s.skip(i + mark.len()) =~= b);
}

/// A text in which the mark does not stand is not found, and is one part.
pub proof fn law_missing_mark_is_not_found(s: Seq<char>, mark: Seq<char>)
    requires
        mark.len() > 0,
        forall|j: int|
            0 <= j <= s.len() - mark.len() ==> #[trigger] s.subrange(j, j + mark.len()) != mark,
    ensures
        first_at(s, mark, 0) is None,
        split(s, mark) == seq![s],
        !contains(s, mark),
{
    lemma_missing(s, mark, 0);
}

/// A mark that stands nowhere is not found from any index on.
proof fn lemma_missing(s: Seq<char>, mark: Seq<char>, from: int)
    requires
        mark.len() > 0,
        0 <= from,
        forall|j: int|
            0 <= j <= s.len() - mark.len() ==> #[trigger] s.subrange(j, j + mark.len()) != mark,
    ensures
        first_at(s, mark, from) is None,
    decreases s.len() + 1 - from,
{
    if from + mark.len() <= s.len() {
        assert(s.subrange(from, from + mark.len()) != mark);
        lemma_missing(s, mark, from + 1);
    }
}

/// The first line ends at the first line feed, or at a carriage return right before it, and the
/// lines behind it follow.
pub proof fn law_lines_end_at_line_feeds(line: Seq<char>, rest: Seq<char>)
    requires
        !line.contains('\n'),
    ensures
        line_seq(line + seq!['\r', '\n'] + rest) == seq![line] + line_seq(rest),
        !(line.len() > 0 && line.last() == '\r') ==> line_seq(line + seq!['\n'] + rest) == seq![
            line,
        ] + line_seq(rest),
        line.len() > 0 ==> line_seq(line) == seq![line],
        line_seq(Seq::empty()) == Seq::<Seq<char>>::empty(),
{
    if !(line.len() > 0 && line.last() == '\r') {
        lemma_first_line(line, rest);
    }
    let longer = line.push('\r');
    let s = line + seq!['\r', '\n'] + rest;
    let feed = seq!['\n'];
    assert(s =~= longer + feed + rest);
    assert forall|j: int| 0 <= j < longer.len() implies #[trigger] (longer + feed).subrange(
        j,
        j + feed.len(),
    ) != feed by {
        assert((longer + feed).subrange(j, j + feed.len())[0] == longer[j]);
        if j < line.len() {
            assert(line[j] == longer[j]);
        }
    }
    law_first_mark_is_found(longer, feed, rest);
    assert(s.take(longer.len() as int) =~= longer);
    assert(longer.drop_last() =~= line);
    assert(s.skip(longer.len() as int + 1) =~= rest);
    if line.len() > 0 {
        lemma_not_found(line, '\n', 0);
    }
}

/// Each mark is replaced, and every other character stays, one by one.
pub proof fn law_replacing_goes_by_characters(
    s: Seq<char>,
    c: char,
    t: Seq<char>,
    mark: char,
    by: Seq<char>,
)
    ensures
        replaced(s + seq![c] + t, mark, by) == replaced(s, mark, by) + (if c == mark {
            by
        } else {
            seq![c]
        }) + replaced(t, mark, by),
        replaced(Seq::empty(), mark, by) == Seq::<char>::empty(),
{
    lemma_replaced_apart(s + seq![c], t, mark, by);
    lemma_replaced_apart(s, seq![c], mark, by);
    let one = seq![c];
    assert(one.drop_last() =~= Seq::empty());
    reveal_with_fuel(replaced, 2);
    assert(replaced(one, mark, by) =~= if c == mark {
        by
    } else {
        seq![c]
    });
}

/// Zeros before digits change nothing.
proof fn lemma_leading_zeros(zeros: nat, digits: Seq<char>, radix: int)
    ensures
        digits_value(Seq::new(zeros, |i: int| '0') + digits, radix) == digits_value(digits, radix),
    decreases zeros + digits.len(),
{
    let front = Seq::new(zeros, |i: int| '0');
    let s = front + digits;
    if digits.len() > 0 {
        assert(s.drop_last() =~= front + digits.drop_last());
        assert(s.last() == digits.last());
        lemma_leading_zeros(zeros, digits.drop_last(), radix);
    } else if zeros > 0 {
        let less = (zeros - 1) as nat;
        assert(s =~= front);
        assert(s.drop_last() =~= Seq::new(less, |i: int| '0') + digits);
        assert(s.last() == '0');
        lemma_leading_zeros(less, digits, radix);
        assert(digits_value(s, radix) == 0);
    } else {
        assert(s =~= digits);
    }
}

/// A decimal numeral is read as its number, with or without zeros and a plus sign before it, up to
/// the largest number and not beyond.
pub proof fn law_numerals_are_read(n: nat, zeros: nat, most: int)
    ensures
        ({
            let numeral = Seq::new(zeros, |i: int| '0') + decimal(n);
            let read = if n <= most {
                Some(n as int)
            } else {
                None
            };
            &&& parsed(numeral, 10, most) == read
            &&& parsed(seq!['+'] + numeral, 10, most) == read
        }),
{
    let numeral = Seq::new(zeros, |i: int| '0') + decimal(n);
    lemma_decimal(n);
    lemma_leading_zeros(zeros, decimal(n), 10);
    assert forall|i: int| 0 <= i < numeral.len() implies is_digit(#[trigger] numeral[i])
        && digit_value(numeral[i]) < 10 by {
        if i >= zeros {
            assert(numeral[i] == decimal(n)[i - zeros]);
        }
    }
    assert(numeral.len() > 0 && is_digit(numeral[0]));
    assert((seq!['+'] + numeral).drop_first() =~= numeral);
}

/// What is no numeral is not read: the empty text, and a text with a character that is no digit,
/// other than a plus sign at its front.
pub proof fn law_other_texts_are_no_numerals(s: Seq<char>, i: int, most: int)
    requires
        s.len() == 0 || (0 <= i < s.len() && !('0' <= s[i] <= '9') && (i > 0 || s[i] != '+'))
            || s == seq!['+'],
    ensures
        parsed(s, 10, most) is None,
{
    let digits = unsigned_part(s);
    if s.len() > 0 && s != seq!['+'] {
        if s[0] == '+' {
            assert(i > 0);
            assert(digits[i - 1] == s[i]);
            assert(digit_value(digits[i - 1]) >= 10);
        } else {
            assert(digits[i] == s[i]);
            assert(digit_value(digits[i]) >= 10);
        }
    }
}

/// The value of a hexadecimal digit, in either case of the letters.
pub open spec fn hex_value(c: char) -> Option<int> {
    if '0' <= c <= '9' {
        Some(c as int - '0' as int)
    } else if 'a' <= c <= 'f' {
        Some(c as int - 'a' as int + 10)
    } else if 'A' <= c <= 'F' {
        Some(c as int - 'A' as int + 10)
    } else {
        None
    }
}

/// One or two hexadecimal digits are read as their byte.
pub proof fn law_hexadecimal_bytes_are_read(high: char, low: char)
    requires
        hex_value(high) is Some,
        hex_value(low) is Some,
    ensures
        parsed(seq![high, low], 16, 255) == Some(hex_value(high)->0 * 16 + hex_value(low)->0),
        parsed(seq![low], 16, 255) == Some(hex_value(low)->0),
{
    let two = seq![high, low];
    let one = seq![low];
    reveal_with_fuel(digits_value, 3);
    assert(two.drop_last() =~= seq![high]);
    assert(two.drop_last().drop_last() =~= Seq::empty());
    assert(one.drop_last() =~= Seq::empty());
    assert(unsigned_part(two) == two);
    assert(unsigned_part(one) == one);
    assert(all_digits(two, 16));
    assert(all_digits(one, 16));
}

/// The classes of characters, by their code points.
pub proof fn law_characters_fall_into_these_classes(c: char)
    ensures
        ({
            let point = c as int;
            &&& is_white_space(c) <==> 9 <= point <= 13 || point == 32 || point == 0x85 || point
                == 0xa0 || point == 0x1680 || 0x2000 <= point <= 0x200a || point == 0x2028 || point
                == 0x2029 || point == 0x202f || point == 0x205f || point == 0x3000
            &&& is_digit(c) <==> 48 <= point <= 57
            &&& is_ascii_alphanumeric(c) <==> 48 <= point <= 57 || 65 <= point <= 90 || 97 <= point
                <= 122
            &&& 65 <= point <= 90 ==> ascii_lower(c) as int == point + 32
            &&& !(65 <= point <= 90) ==> ascii_lower(c) == c
        }),
{
}

/// A text at the back comes off as often as it stands there, and what does not end in it stays.
pub proof fn law_texts_at_the_back_come_off(s: Seq<char>, suffix: Seq<char>)
    ensures
        trim_suffix(s + suffix, suffix) == trim_suffix(s, suffix),
        !ends_in(s, suffix) ==> trim_suffix(s, suffix) == s,
        suffix.len() == 0 ==> trim_suffix(s, suffix) == s,
        suffix.len() > 0 ==> !ends_in(trim_suffix(s, suffix), suffix),
    decreases s.len(),
{
    if suffix.len() == 0 {
        assert(s + suffix =~= s);
    } else {
        law_beginnings_and_endings(s + suffix, suffix);
        assert(s + suffix == (s + suffix));
        assert((s + suffix).take((s + suffix).len() - suffix.len()) =~= s);
        if ends_in(s, suffix) {
            law_texts_at_the_back_come_off(s.take(s.len() - suffix.len()), suffix);
        }
    }
}

} // verus!
