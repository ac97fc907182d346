//! Waking other machines: magic packets.

use vstd::prelude::*;
use crate::json::{Json, JsonView};
use crate::text::{
    chars_of, digit_value, hex_value, law_hexadecimal_bytes_are_read, lemma_first_part,
    lemma_only_part, lemma_replaced_apart, lemma_replaced_nowhere, parse, parsed, pieces, replace,
    replaced, split, split_at_each, unsigned_part,
};

verus! {

/// Where a magic packet is sent, first.
pub const WAKE_ADDRESS: &'static str = "255.255.255.255:9";

/// Where a magic packet is sent, second.
pub const WAKE_ADDRESS_TOO: &'static str = "255.255.255.255:7";

/// The bytes that the parts of an address spell in hexadecimal digits. Parts that spell no byte
/// are passed over.
pub open spec fn bytes_of_parts(parts: Seq<Seq<char>>) -> Seq<u8>
    decreases parts.len(),
{
    if parts.len() == 0 {
        Seq::empty()
    } else {
        let front = bytes_of_parts(parts.drop_last());
        match parsed(parts.last(), 16, 255) {
            Some(byte) => front.push(byte as u8),
            None => front,
        }
    }
}

/// The bytes of a hardware address, whose parts stand between colons or hyphens.
pub open spec fn address_bytes(mac: Seq<char>) -> Seq<u8> {
    bytes_of_parts(split(replaced(mac, '-', seq![':']), seq![':']))
}

/// The magic packet for an address: six bytes of ones, then the address sixteen times.
pub open spec fn packet_for(address: Seq<u8>) -> Seq<u8> {
    Seq::new(
        102,
        |i: int|
            if i < 6 {
                0xffu8
            } else {
                address[(i - 6) % 6]
            },
    )
}

/// The magic packet for a hardware address, where it has six bytes.
pub open spec fn magic_packet_view(mac: Seq<char>) -> Option<Seq<u8>> {
    if address_bytes(mac).len() == 6 {
        Some(packet_for(address_bytes(mac)))
    } else {
        None
    }
}

/// The bytes of a hardware address.
fn hardware_address(mac: &str) -> (bytes: Vec<u8>)
    ensures
        bytes@ == address_bytes(mac@),
{
    let chars = chars_of(mac);
    let colon: [char; 1] = [':'];
    assert(colon@ =~= seq![':']);
    let uniform = replace(chars.as_slice(), '-', &colon);
    let parts = split_at_each(uniform.as_slice(), &colon);
    let ghost all = pieces(parts@);
    let mut bytes: Vec<u8> = Vec::new();
    for i in 0..parts.len()
        invariant
            all == pieces(parts@),
            bytes@ == bytes_of_parts(all.take(i as int)),
    {
        assert(all.take(i as int + 1).drop_last() =~= all.take(i as int));
        assert(all.take(i as int + 1).last() == parts@[i as int]@);
        if let Some(byte) = parse(parts[i], 16, 255) {
            bytes.push(byte as u8);
        }
    }
    assert(all.take(parts@.len() as int) =~= all);
    bytes
}

/// The magic packet for a hardware address.
pub fn magic_packet(mac: &str) -> (packet: Option<Vec<u8>>)
    ensures
        (match packet {
            Some(bytes) => Some(bytes@),
            None => None,
        }) == magic_packet_view(mac@),
{
    let address = hardware_address(mac);
    if address.len() != 6 {
        return None;
    }
    let mut packet: Vec<u8> = Vec::new();
    let ghost whole = packet_for(address@);
    for i in 0..102usize
        invariant
            address@.len() == 6,
            whole == packet_for(address@),
            packet@.len() == i,
            forall|j: int| 0 <= j < i ==> packet@[j] == whole[j],
    {
        if i < 6 {
            packet.push(0xffu8);
        } else {
            packet.push(address[(i - 6) % 6]);
        }
    }
    assert(packet@ =~= whole);
    Some(packet)
}

/// The packets for the targets, in their order. A target without a hardware address of six bytes is
/// passed over.
pub open spec fn wake_packets(targets: Seq<JsonView>) -> Seq<Seq<u8>>
    decreases targets.len(),
{
    if targets.len() == 0 {
        Seq::empty()
    } else {
        let front = wake_packets(targets.drop_last());
        match targets.last().field("mac"@) {
            Some(JsonView::Text(mac)) => match magic_packet_view(mac) {
                Some(packet) => front.push(packet),
                None => front,
            },
            _ => front,
        }
    }
}

/// The contents of a list of packets.
pub open spec fn packet_seq(packets: Seq<Vec<u8>>) -> Seq<Seq<u8>> {
    packets.map_values(|packet: Vec<u8>| packet@)
}

/// The packets that wake the targets.
pub fn dispatch_wol(targets: &Vec<Json>) -> (packets: Vec<Vec<u8>>)
    ensures
        packet_seq(packets@) == wake_packets(targets.deep_view()),
{
    let mut packets: Vec<Vec<u8>> = Vec::new();
    let ghost all = targets.deep_view();
    assert(packet_seq(packets@) =~= wake_packets(all.take(0)));
    for i in 0..targets.len()
        invariant
            all == targets.deep_view(),
            packet_seq(packets@) == wake_packets(all.take(i as int)),
    {
        assert(all.take(i as int + 1).drop_last() =~= all.take(i as int));
        assert(all.take(i as int + 1).last() == targets@[i as int]@);
        let ghost before = packet_seq(packets@);
        if let Some(value) = targets[i].get("mac") {
            if let Json::Text(mac) = value {
                if let Some(packet) = magic_packet(mac.as_str()) {
                    let ghost bytes = packet@;
                    packets.push(packet);
                    assert(packet_seq(packets@) =~= before.push(bytes));
                }
            }
        }
    }
    assert(all.take(targets@.len() as int) =~= all);
    packets
}

/// A magic packet has 102 bytes: six of ones, and the address from there on, again and again.
pub proof fn law_packet_repeats_the_address(mac: Seq<char>, copy: int, i: int)
    requires
        magic_packet_view(mac) is Some,
        0 <= copy < 16,
        0 <= i < 6,
    ensures
        magic_packet_view(mac)->0.len() == 102,
        magic_packet_view(mac)->0[i] == 0xff,
        magic_packet_view(mac)->0[6 + 6 * copy + i] == address_bytes(mac)[i],
{
    assert((6 * copy + i) % 6 == i);
}

/// Parts with a separator between them.
pub open spec fn joined(parts: Seq<Seq<char>>, separator: char) -> Seq<char>
    decreases parts.len(),
{
    if parts.len() == 0 {
        Seq::empty()
    } else if parts.len() == 1 {
        parts[0]
    } else {
        parts[0] + seq![separator] + joined(parts.drop_first(), separator)
    }
}

/// Each part spells the byte at its place.
pub open spec fn spells(parts: Seq<Seq<char>>, address: Seq<u8>) -> bool {
    &&& parts.len() == address.len()
    &&& forall|i: int|
        0 <= i < parts.len() ==> parsed(#[trigger] parts[i], 16, 255) == Some(address[i] as int)
}

/// A part that spells a byte has no separator in it.
proof fn lemma_no_separator(part: Seq<char>)
    requires
        parsed(part, 16, 255) is Some,
    ensures
        !part.contains(':'),
        !part.contains('-'),
{
    let digits = unsigned_part(part);
    assert forall|i: int| 0 <= i < part.len() implies part[i] != ':' && part[i] != '-' by {
        if digits == part {
            assert(digit_value(digits[i]) < 16);
        } else if i > 0 {
            assert(part[i] == digits[i - 1]);
            assert(digit_value(digits[i - 1]) < 16);
        }
    }
}

/// The parts of an address come apart at its separators.
proof fn lemma_parts_come_apart(parts: Seq<Seq<char>>, address: Seq<u8>, separator: char)
    requires
        parts.len() > 0,
        spells(parts, address),
        separator == ':' || separator == '-',
    ensures
        replaced(joined(parts, separator), '-', seq![':']) == joined(parts, ':'),
        split(joined(parts, ':'), seq![':']) == parts,
    decreases parts.len(),
{
    let part = parts[0];
    lemma_no_separator(part);
    lemma_replaced_nowhere(part, '-', seq![':']);
    if parts.len() == 1 {
        lemma_only_part(part, ':');
        assert(seq![part] =~= parts);
    } else {
        let rest = parts.drop_first();
        assert(spells(rest, address.drop_first()));
        lemma_parts_come_apart(rest, address.drop_first(), separator);
        let middle = seq![separator];
        lemma_replaced_apart(part + middle, joined(rest, separator), '-', seq![':']);
        lemma_replaced_apart(part, middle, '-', seq![':']);
        assert(middle.drop_last() =~= Seq::empty());
        reveal_with_fuel(replaced, 2);
        assert(replaced(middle, '-', seq![':']) =~= seq![':']);
        lemma_first_part(part, ':', joined(rest, ':'));
        assert(seq![part] + rest =~= parts);
    }
}

/// Parts that spell bytes are read as those bytes.
proof fn lemma_bytes_of_parts(parts: Seq<Seq<char>>, address: Seq<u8>)
    requires
        spells(parts, address),
    ensures
        bytes_of_parts(parts) == address,
    decreases parts.len(),
{
    if parts.len() > 0 {
        assert(spells(parts.drop_last(), address.drop_last()));
        lemma_bytes_of_parts(parts.drop_last(), address.drop_last());
        assert(parts[parts.len() - 1] == parts.last());
    }
    assert(bytes_of_parts(parts) =~= address);
}

/// An address that is written byte by byte in hexadecimal digits, with colons or with hyphens, is
/// read as its bytes, and its packet goes to it.
pub proof fn law_written_address_is_read(
    parts: Seq<Seq<char>>,
    address: Seq<u8>,
    separator: char,
)
    requires
        address.len() == 6,
        spells(parts, address),
        separator == ':' || separator == '-',
    ensures
        address_bytes(joined(parts, separator)) == address,
        magic_packet_view(joined(parts, separator)) == Some(packet_for(address)),
{
    lemma_parts_come_apart(parts, address, separator);
    lemma_bytes_of_parts(parts, address);
}

/// Each target with an address of six bytes is woken, in its order; any other is passed over.
pub proof fn law_every_target_is_woken(
    before: Seq<JsonView>,
    target: JsonView,
    behind: Seq<JsonView>,
)
    ensures
        wake_packets(before + seq![target] + behind) == wake_packets(before) + (match target.field(
            "mac"@,
        ) {
            Some(JsonView::Text(mac)) => if address_bytes(mac).len() == 6 {
                seq![packet_for(address_bytes(mac))]
            } else {
                Seq::empty()
            },
            _ => Seq::empty(),
        }) + wake_packets(behind),
        wake_packets(Seq::empty()) == Seq::<Seq<u8>>::empty(),
    decreases behind.len(),
{
    let all = before + seq![target] + behind;
    let one = match target.field("mac"@) {
        Some(JsonView::Text(mac)) => if address_bytes(mac).len() == 6 {
            seq![packet_for(address_bytes(mac))]
        } else {
            Seq::empty()
        },
        _ => Seq::empty(),
    };
    if behind.len() == 0 {
        assert(all.drop_last() =~= before);
        assert(all.last() == target);
        assert(wake_packets(all) =~= wake_packets(before) + one + wake_packets(behind));
    } else {
        law_every_target_is_woken(before, target, behind.drop_last());
        assert(all.drop_last() =~= before + seq![target] + behind.drop_last());
        assert(all.last() == behind.last());
        assert(wake_packets(all) =~= wake_packets(before) + one + wake_packets(behind));
    }
}

/// An address in hexadecimal digits, one or two for each byte and in either case of the letters, with
/// colons or hyphens between them, is read as its bytes.
pub proof fn law_hexadecimal_addresses_are_read(
    parts: Seq<Seq<char>>,
    address: Seq<u8>,
    separator: char,
)
    requires
        parts.len() == 6 && address.len() == 6,
        separator == ':' || separator == '-',
        forall|i: int|
            0 <= i < 6 ==> (#[trigger] parts[i]).len() == 2 && hex_value(parts[i][0]) is Some
                && hex_value(parts[i][1]) is Some && address[i] == hex_value(parts[i][0])->0 * 16
                + hex_value(parts[i][1])->0 || parts[i].len() == 1 && hex_value(parts[i][0])
                is Some && address[i] == hex_value(parts[i][0])->0,
    ensures
        magic_packet_view(joined(parts, separator)) == Some(packet_for(address)),
{
    assert forall|i: int| 0 <= i < parts.len() implies parsed(#[trigger] parts[i], 16, 255) == Some(
        address[i] as int,
    ) by {
        let part = parts[i];
        if part.len() == 2 {
            assert(part =~= seq![part[0], part[1]]);
            law_hexadecimal_bytes_are_read(part[0], part[1]);
        } else {
            assert(part =~= seq![part[0]]);
            law_hexadecimal_bytes_are_read(part[0], part[0]);
        }
    }
    law_written_address_is_read(parts, address, separator);
}

/// A part of an address that spells no byte is passed over, wherever it stands.
pub proof fn law_parts_that_spell_no_byte_are_passed_over(
    before: Seq<Seq<char>>,
    part: Seq<char>,
    behind: Seq<Seq<char>>,
)
    ensures
        bytes_of_parts(before + seq![part] + behind) == bytes_of_parts(before) + (match parsed(
            part,
            16,
            255,
        ) {
            Some(byte) => seq![byte as u8],
            None => Seq::empty(),
        }) + bytes_of_parts(behind),
        bytes_of_parts(Seq::empty()) == Seq::<u8>::empty(),
    decreases behind.len(),
{
    let all = before + seq![part] + behind;
    let one = match parsed(part, 16, 255) {
        Some(byte) => seq![byte as u8],
        None => Seq::empty(),
    };
    if behind.len() == 0 {
        assert(all.drop_last() =~= before);
        assert(all.last() == part);
        assert(bytes_of_parts(all) =~= bytes_of_parts(before) + one + bytes_of_parts(behind));
    } else {
        law_parts_that_spell_no_byte_are_passed_over(before, part, behind.drop_last());
        assert(all.drop_last() =~= before + seq![part] + behind.drop_last());
        assert(all.last() == behind.last());
        assert(bytes_of_parts(all) =~= bytes_of_parts(before) + one + bytes_of_parts(behind));
    }
}

} // verus!
