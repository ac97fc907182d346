use conectdesk_agent::base64::base64_decode;

fn encode(bytes: &[u8]) -> String {
    let table: Vec<char> =
        "ABCDEFGHIJKLMNOPQRSTUVWXYZabcdefghijklmnopqrstuvwxyz0123456789+/".chars().collect();
    let mut out = String::new();
    for chunk in bytes.chunks(3) {
        let b = [chunk[0], *chunk.get(1).unwrap_or(&0), *chunk.get(2).unwrap_or(&0)];
        out.push(table[(b[0] >> 2) as usize]);
        out.push(table[(((b[0] & 3) << 4) | (b[1] >> 4)) as usize]);
        out.push(if chunk.len() > 1 { table[(((b[1] & 15) << 2) | (b[2] >> 6)) as usize] } else { '=' });
        out.push(if chunk.len() > 2 { table[(b[2] & 63) as usize] } else { '=' });
    }
    out
}

#[test]
fn known_texts() {
    assert_eq!(base64_decode(""), Some(vec![]));
    assert_eq!(base64_decode("Zg=="), Some(b"f".to_vec()));
    assert_eq!(base64_decode("Zm8="), Some(b"fo".to_vec()));
    assert_eq!(base64_decode("Zm9v"), Some(b"foo".to_vec()));
    assert_eq!(base64_decode("Zm9vYmFy"), Some(b"foobar".to_vec()));
    assert_eq!(base64_decode("Zm9vYg"), Some(b"foob".to_vec()));
}

#[test]
fn both_alphabets() {
    assert_eq!(base64_decode("+/+/"), Some(vec![0xfb, 0xff, 0xbf]));
    assert_eq!(base64_decode("-_-_"), Some(vec![0xfb, 0xff, 0xbf]));
}

#[test]
fn white_space_and_padding_are_passed_over() {
    assert_eq!(base64_decode(" Z\tm\r\n9\u{c}v = "), Some(b"foo".to_vec()));
    assert_eq!(base64_decode("=Zm=9v="), Some(b"foo".to_vec()));
    assert_eq!(base64_decode("===="), Some(vec![]));
}

#[test]
fn other_characters_are_refused() {
    for bad in ["Zm9v!", "é", "Zm9v\u{b}", "a.b", "\u{a0}Zm9v"] {
        assert_eq!(base64_decode(bad), None, "{:?}", bad);
    }
}

#[test]
fn leftover_bits_are_dropped() {
    assert_eq!(base64_decode("Z"), Some(vec![]));
    assert_eq!(base64_decode("Zn"), Some(b"f".to_vec()));
    assert_eq!(base64_decode("Zm9vZ"), Some(b"foo".to_vec()));
}

#[test]
fn encoded_bytes_come_back() {
    let all: Vec<u8> = (0..=255).collect();
    for n in 0..all.len() {
        assert_eq!(base64_decode(&encode(&all[..n])), Some(all[..n].to_vec()));
    }
}

#[test]
fn a_long_text() {
    let bytes: Vec<u8> = (0..300_000u32).map(|i| (i * 7 % 251) as u8).collect();
    assert_eq!(base64_decode(&encode(&bytes)), Some(bytes));
}
