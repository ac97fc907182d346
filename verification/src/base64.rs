//! Base64 as it comes from the panel: either alphabet, padding optional, white space ignored.

use vstd::prelude::*;

verus! {

/// The characters that stand for nothing: ASCII white space and the padding sign.
pub open spec fn is_skipped(c: char) -> bool {
    c == ' ' || c == '\t' || c == '\n' || c == '\u{c}' || c == '\r' || c == '='
}

/// The six bits that a character stands for, or -1 for a character of neither alphabet.
pub open spec fn sextet(c: char) -> int {
    if 'A' <= c <= 'Z' {
        c as int - 'A' as int
    } else if 'a' <= c <= 'z' {
        c as int - 'a' as int + 26
    } else if '0' <= c <= '9' {
        c as int - '0' as int + 52
    } else if c == '+' || c == '-' {
        62
    } else if c == '/' || c == '_' {
        63
    } else {
        -1
    }
}

/// Every character of `s` is skipped or belongs to one of the alphabets.
pub open spec fn is_base64(s: Seq<char>) -> bool {
    forall|i: int| 0 <= i < s.len() ==> is_skipped(#[trigger] s[i]) || sextet(s[i]) >= 0
}

/// The six-bit groups that the characters of `s` stand for.
pub open spec fn sextets(s: Seq<char>) -> Seq<int>
    decreases s.len(),
{
    if s.len() == 0 {
        Seq::empty()
    } else if is_skipped(s.last()) {
        sextets(s.drop_last())
    } else {
        sextets(s.drop_last()).push(sextet(s.last()))
    }
}

/// The byte at index `k` of the bit string that the six-bit groups make up.
pub open spec fn byte_at(groups: Seq<int>, k: int) -> int {
    let first = k / 3 * 4;
    if k % 3 == 0 {
        groups[first] * 4 + groups[first + 1] / 16
    } else if k % 3 == 1 {
        groups[first + 1] % 16 * 16 + groups[first + 2] / 4
    } else {
        groups[first + 2] % 4 * 64 + groups[first + 3]
    }
}

/// The whole bytes that the six-bit groups make up. Bits that fill no byte are dropped.
pub open spec fn packed(groups: Seq<int>) -> Seq<u8> {
    Seq::new((groups.len() * 3 / 4) as nat, |k: int| byte_at(groups, k) as u8)
}

/// What `s` decodes to: nothing where a character belongs to neither alphabet.
pub open spec fn decoded(s: Seq<char>) -> Option<Seq<u8>> {
    if is_base64(s) {
        Some(packed(sextets(s)))
    } else {
        None
    }
}

/// The six bits that `c` stands for, 255 for a character of neither alphabet.
fn group_of(c: char) -> (group: u8)
    ensures
        sextet(c) >= 0 ==> group == sextet(c),
        sextet(c) < 0 ==> group == 255,
        group < 64 || group == 255,
{
    if 'A' <= c && c <= 'Z' {
        c as u8 - 65
    } else if 'a' <= c && c <= 'z' {
        c as u8 - 97 + 26
    } else if '0' <= c && c <= '9' {
        c as u8 - 48 + 52
    } else if c == '+' || c == '-' {
        62
    } else if c == '/' || c == '_' {
        63
    } else {
        255
    }
}

/// Decodes base64 text.
pub fn base64_decode(s: &str) -> (bytes: Option<Vec<u8>>)
    ensures
        (match bytes {
            Some(list) => Some(list@),
            None => None,
        }) == decoded(s@),
{
    let mut out: Vec<u8> = Vec::new();
    let mut buf: u32 = 0;
    let mut bits: u32 = 0;
    let ghost mut groups: Seq<int> = Seq::empty();
    assert(packed(groups) =~= Seq::<u8>::empty());
    for c in iter: s.chars()
        invariant
            iter.seq() == s@,
            groups == sextets(s@.take(iter.index())),
            forall|i: int|
                0 <= i < iter.index() ==> is_skipped(#[trigger] s@[i]) || sextet(s@[i]) >= 0,
            forall|i: int| 0 <= i < groups.len() ==> 0 <= #[trigger] groups[i] < 64,
            out@ == packed(groups),
            groups.len() % 4 == 0 ==> bits == 0,
            groups.len() % 4 == 1 ==> bits == 6 && buf % 64 == groups.last(),
            groups.len() % 4 == 2 ==> bits == 4 && buf % 16 == groups.last() % 16,
            groups.len() % 4 == 3 ==> bits == 2 && buf % 4 == groups.last() % 4,
    {
        assert(s@.take(iter.index() + 1).drop_last() =~= s@.take(iter.index()));
        assert(c == s@[iter.index()]);
        let skipped = c == ' ' || c == '\t' || c == '\n' || c == '\u{c}' || c == '\r' || c == '=';
        if !skipped {
            let group: u8 = group_of(c);
            if group == 255 {
                return None;
            }
            let ghost before = groups;
            let ghost old_buf = buf;
            proof {
                groups = groups.push(sextet(c));
            }
            let wide: u32 = group as u32;
            buf = (buf << 6) | wide;
            bits = bits + 6;
            proof {
                assert(buf % 64 == wide && (buf % 16) == wide % 16 && (buf % 4) == wide % 4)
                    by (bit_vector)
                    requires
                        buf == (old_buf << 6) | wide,
                        wide < 64,
                ;
            }
            if bits >= 8 {
                bits = bits - 8;
                let byte: u8 = ((buf >> bits) & 0xff) as u8;
                proof {
                    let k = (before.len() * 3 / 4) as int;
                    if before.len() % 4 == 1 {
                        let last = old_buf % 64;
                        assert(((buf >> 4u32) & 0xff) == last * 4 + wide / 16) by (bit_vector)
                            requires
                                buf == (old_buf << 6) | wide,
                                wide < 64,
                                last == old_buf % 64,
                        ;
                    } else if before.len() % 4 == 2 {
                        let last = old_buf % 16;
                        assert(((buf >> 2u32) & 0xff) == last * 16 + wide / 4) by (bit_vector)
                            requires
                                buf == (old_buf << 6) | wide,
                                wide < 64,
                                last == old_buf % 16,
                        ;
                    } else {
                        let last = old_buf % 4;
                        assert(((buf >> 0u32) & 0xff) == last * 64 + wide) by (bit_vector)
                            requires
                                buf == (old_buf << 6) | wide,
                                wide < 64,
                                last == old_buf % 4,
                        ;
                    }
                    assert(byte == byte_at(groups, k));
                }
                out.push(byte);
            }
            assert(out@ =~= packed(groups));
        }
    }
    assert(s@.take(s@.len() as int) =~= s@);
    Some(out)
}

// ---------------------------------------------------------------------------------------------
// Laws
// ---------------------------------------------------------------------------------------------

/// Appending text appends its six-bit groups.
proof fn lemma_sextets_append(a: Seq<char>, b: Seq<char>)
    ensures
        sextets(a + b) == sextets(a) + sextets(b),
    decreases b.len(),
{
    if b.len() == 0 {
        assert(a + b =~= a);
        assert(sextets(a) + sextets(b) =~= sextets(a));
    } else {
        assert((a + b).drop_last() =~= a + b.drop_last());
        lemma_sextets_append(a, b.drop_last());
        assert(sextets(a + b) =~= sextets(a) + sextets(b));
    }
}

/// Text that is skipped changes nothing, wherever it stands.
pub proof fn law_skipped_text_changes_nothing(a: Seq<char>, skipped: Seq<char>, b: Seq<char>)
    requires
        forall|i: int| 0 <= i < skipped.len() ==> is_skipped(#[trigger] skipped[i]),
    ensures
        decoded(a + skipped + b) == decoded(a + b),
{
    lemma_all_skipped(skipped);
    lemma_sextets_append(a, skipped);
    lemma_sextets_append(a + skipped, b);
    lemma_sextets_append(a, b);
    assert(sextets(a) + Seq::<int>::empty() =~= sextets(a));
    let whole = a + skipped + b;
    let short = a + b;
    if is_base64(whole) {
        assert forall|i: int| 0 <= i < short.len() implies is_skipped(#[trigger] short[i])
            || sextet(short[i]) >= 0 by {
            if i < a.len() {
                assert(whole[i] == short[i]);
            } else {
                assert(whole[i + skipped.len()] == short[i]);
            }
        }
    }
    if is_base64(short) {
        assert forall|i: int| 0 <= i < whole.len() implies is_skipped(#[trigger] whole[i])
            || sextet(whole[i]) >= 0 by {
            if i < a.len() {
                assert(whole[i] == short[i]);
            } else if i < a.len() + skipped.len() {
                assert(whole[i] == skipped[i - a.len()]);
            } else {
                assert(whole[i] == short[i - skipped.len()]);
            }
        }
    }
}

proof fn lemma_all_skipped(s: Seq<char>)
    requires
        forall|i: int| 0 <= i < s.len() ==> is_skipped(#[trigger] s[i]),
    ensures
        sextets(s) == Seq::<int>::empty(),
    decreases s.len(),
{
    if s.len() > 0 {
        lemma_all_skipped(s.drop_last());
    }
}

/// The byte at index `k`, zero past the end.
pub open spec fn byte_or_zero(bytes: Seq<u8>, k: int) -> int {
    if 0 <= k < bytes.len() {
        bytes[k] as int
    } else {
        0
    }
}

/// The six-bit group at index `j` of the bit string that the bytes make up.
pub open spec fn group_at(bytes: Seq<u8>, j: int) -> int {
    let first = j / 4 * 3;
    if j % 4 == 0 {
        byte_or_zero(bytes, first) / 4
    } else if j % 4 == 1 {
        byte_or_zero(bytes, first) % 4 * 16 + byte_or_zero(bytes, first + 1) / 16
    } else if j % 4 == 2 {
        byte_or_zero(bytes, first + 1) % 16 * 4 + byte_or_zero(bytes, first + 2) / 64
    } else {
        byte_or_zero(bytes, first + 2) % 64
    }
}

/// The six-bit groups of the bytes, the last one filled up with zero bits.
pub open spec fn unpacked(bytes: Seq<u8>) -> Seq<int> {
    Seq::new(((bytes.len() * 4 + 2) / 3) as nat, |j: int| group_at(bytes, j))
}

/// The bytes come back out of their six-bit groups.
proof fn lemma_packed_unpacked(bytes: Seq<u8>)
    ensures
        packed(unpacked(bytes)) == bytes,
{
    let groups = unpacked(bytes);
    assert(groups.len() * 3 / 4 == bytes.len());
    assert forall|k: int| 0 <= k < bytes.len() implies byte_at(groups, k) == bytes[k] by {
        let q = k / 3;
        assert(q * 4 / 4 == q && (q * 4 + 1) / 4 == q && (q * 4 + 2) / 4 == q && (q * 4 + 3) / 4
            == q);
        if k % 3 == 0 {
            assert(groups[q * 4] == group_at(bytes, q * 4));
            assert(groups[q * 4 + 1] == group_at(bytes, q * 4 + 1));
        } else if k % 3 == 1 {
            assert(groups[q * 4 + 1] == group_at(bytes, q * 4 + 1));
            assert(groups[q * 4 + 2] == group_at(bytes, q * 4 + 2));
        } else {
            assert(groups[q * 4 + 2] == group_at(bytes, q * 4 + 2));
            assert(groups[q * 4 + 3] == group_at(bytes, q * 4 + 3));
        }
    }
    assert(packed(groups) =~= bytes);
}

/// Any text that spells out the six-bit groups of some bytes decodes to those bytes: in either
/// alphabet, with or without padding, and with white space anywhere.
pub proof fn law_spelled_bytes_decode(text: Seq<char>, bytes: Seq<u8>)
    requires
        is_base64(text),
        sextets(text) == unpacked(bytes),
    ensures
        decoded(text) == Some(bytes),
{
    lemma_packed_unpacked(bytes);
}

/// The character for a six-bit group: in the standard alphabet, or in the one for addresses.
pub open spec fn symbol(group: int, for_address: bool) -> char {
    if group < 26 {
        ('A' as int + group) as char
    } else if group < 52 {
        ('a' as int + group - 26) as char
    } else if group < 62 {
        ('0' as int + group - 52) as char
    } else if group == 62 {
        if for_address {
            '-'
        } else {
            '+'
        }
    } else {
        if for_address {
            '_'
        } else {
            '/'
        }
    }
}

/// The base64 text of the bytes, without padding.
pub open spec fn encoded(bytes: Seq<u8>, for_address: bool) -> Seq<char> {
    unpacked(bytes).map_values(|group: int| symbol(group, for_address))
}

/// Bytes that were encoded, in either alphabet, and padded with any number of padding signs decode
/// to themselves.
pub proof fn law_encoded_bytes_decode(bytes: Seq<u8>, for_address: bool, padding: nat)
    ensures
        decoded(encoded(bytes, for_address) + Seq::new(padding, |i: int| '=')) == Some(bytes),
{
    let groups = unpacked(bytes);
    let text = encoded(bytes, for_address);
    assert forall|j: int| 0 <= j < groups.len() implies 0 <= #[trigger] groups[j] < 64 by {
        assert(groups[j] == group_at(bytes, j));
    }
    assert forall|j: int| 0 <= j < text.len() implies !is_skipped(#[trigger] text[j]) && sextet(
        text[j],
    ) == groups[j] by {
        assert(text[j] == symbol(groups[j], for_address));
    }
    lemma_plain_sextets(text, groups);
    law_spelled_bytes_decode(text, bytes);
    let pad = Seq::new(padding, |i: int| '=');
    law_skipped_text_changes_nothing(text, pad, Seq::empty());
    assert(text + pad + Seq::<char>::empty() =~= text + pad);
    assert(text + Seq::<char>::empty() =~= text);
}

proof fn lemma_plain_sextets(text: Seq<char>, groups: Seq<int>)
    requires
        text.len() == groups.len(),
        forall|j: int|
            0 <= j < text.len() ==> !is_skipped(#[trigger] text[j]) && sextet(text[j]) == groups[j],
    ensures
        sextets(text) == groups,
    decreases text.len(),
{
    if text.len() > 0 {
        lemma_plain_sextets(text.drop_last(), groups.drop_last());
        assert(groups.drop_last().push(groups.last()) =~= groups);
    } else {
        assert(groups =~= Seq::<int>::empty());
    }
}

/// Encoded bytes are letters, digits and the two signs of the alphabet.
pub proof fn lemma_encoded_alphabet(bytes: Seq<u8>, for_address: bool, i: int)
    requires
        0 <= i < encoded(bytes, for_address).len(),
    ensures
        ({
            let c = encoded(bytes, for_address)[i];
            'A' <= c <= 'Z' || 'a' <= c <= 'z' || '0' <= c <= '9' || c == '+' || c == '/' || c
                == '-' || c == '_'
        }),
{
    assert(unpacked(bytes)[i] == group_at(bytes, i));
    assert(0 <= unpacked(bytes)[i] < 64);
}

/// A character of neither alphabet that is no white space and no padding spoils the text, wherever
/// it stands.
pub proof fn law_other_characters_spoil_the_text(a: Seq<char>, c: char, b: Seq<char>)
    requires
        !('A' <= c <= 'Z' || 'a' <= c <= 'z' || '0' <= c <= '9' || c == '+' || c == '/' || c == '-'
            || c == '_' || c == '=' || c == ' ' || c == '\t' || c == '\n' || c == '\r' || c
            == '\u{c}'),
    ensures
        decoded(a + seq![c] + b) is None,
{
    assert((a + seq![c] + b)[a.len() as int] == c);
}

/// Each group of four characters gives three bytes, whatever follows: eight bits at a time, six bits
/// from each character.
pub proof fn law_four_characters_give_three_bytes(
    groups: Seq<int>,
    a: int,
    b: int,
    c: int,
    d: int,
    rest: Seq<int>,
)
    requires
        groups.len() % 4 == 0,
        0 <= a < 64,
        0 <= b < 64,
        0 <= c < 64,
        0 <= d < 64,
    ensures
        ({
            let whole = packed(groups + seq![a, b, c, d] + rest);
            let k = groups.len() as int / 4 * 3;
            &&& whole.len() >= k + 3
            &&& whole[k] as int * 65536 + whole[k + 1] as int * 256 + whole[k + 2] as int == a
                * 262144 + b * 4096 + c * 64 + d
        }),
{
    let all = groups + seq![a, b, c, d] + rest;
    let n = groups.len() as int;
    let k = n / 4 * 3;
    assert(all[n] == a && all[n + 1] == b && all[n + 2] == c && all[n + 3] == d);
    assert(k / 3 * 4 == n && (k + 1) / 3 * 4 == n && (k + 2) / 3 * 4 == n);
    assert(all.len() * 3 / 4 >= k + 3);
    assert(byte_at(all, k) == a * 4 + b / 16);
    assert(byte_at(all, k + 1) == b % 16 * 16 + c / 4);
    assert(byte_at(all, k + 2) == c % 4 * 64 + d);
}

/// A blank, a tab, the end of a line, a form feed or a padding sign changes nothing, wherever it
/// stands.
pub proof fn law_blanks_and_padding_change_nothing(a: Seq<char>, c: char, b: Seq<char>)
    requires
        c == ' ' || c == '\t' || c == '\n' || c == '\r' || c == '\u{c}' || c == '=',
    ensures
        decoded(a + seq![c] + b) == decoded(a + b),
{
    law_skipped_text_changes_nothing(a, seq![c], b);
}

/// The characters of both alphabets stand for the numbers below 64, each in its place.
pub proof fn law_alphabets_count_to_64(c: char)
    ensures
        0 <= sextet(c) < 26 <==> 'A' <= c <= 'Z',
        26 <= sextet(c) < 52 <==> 'a' <= c <= 'z',
        52 <= sextet(c) < 62 <==> '0' <= c <= '9',
        sextet(c) == 62 <==> c == '+' || c == '-',
        sextet(c) == 63 <==> c == '/' || c == '_',
        'A' <= c <= 'Z' ==> sextet(c) == c as int - 65,
        'a' <= c <= 'z' ==> sextet(c) == c as int - 71,
        '0' <= c <= '9' ==> sextet(c) == c as int + 4,
        sextet(c) < 64,
{
}

} // verus!
