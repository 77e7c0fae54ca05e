use rustydeb::container::{parse_plain_size, read_members, screen_container, ArchiveMember};
use rustydeb::error::DebError;

fn container(members: &[(&[u8], &[u8])]) -> Vec<u8> {
    let mut builder = ar::Builder::new(Vec::new());
    for (name, data) in members {
        let header = ar::Header::new(name.to_vec(), data.len() as u64);
        builder.append(&header, *data).unwrap();
    }
    builder.into_inner().unwrap()
}

fn raw_header(name: &str, size: &str) -> Vec<u8> {
    format!("{:<16}{:<12}{:<6}{:<6}{:<8}{:<10}`\n", name, 0, 0, 0, "100644", size).into_bytes()
}

fn raw_container(parts: &[Vec<u8>]) -> Vec<u8> {
    let mut bytes = b"!<arch>\n".to_vec();
    for part in parts {
        bytes.extend_from_slice(part);
    }
    bytes
}

fn member(identifier: &[u8], content: &[u8]) -> ArchiveMember {
    ArchiveMember { identifier: identifier.to_vec(), content: content.to_vec() }
}

#[test]
fn reads_members_in_order() {
    let bytes = container(&[(b"debian-binary", b"2.0\n"), (b"data.tar", b"abcdef")]);
    assert_eq!(
        read_members(&bytes),
        Ok(vec![member(b"debian-binary", b"2.0\n"), member(b"data.tar", b"abcdef")])
    );
}

#[test]
fn content_of_odd_length_is_padded_in_the_container_only() {
    let bytes = container(&[(b"a", b"x"), (b"b", b"yz"), (b"c", b"")]);
    assert_eq!(
        read_members(&bytes),
        Ok(vec![member(b"a", b"x"), member(b"b", b"yz"), member(b"c", b"")])
    );
}

#[test]
fn container_without_members_is_readable() {
    assert_eq!(read_members(b"!<arch>\n"), Ok(vec![]));
}

#[test]
fn bytes_that_are_no_container_are_malformed() {
    assert_eq!(read_members(b"not an archive at all"), Err(DebError::MalformedContainer));
    assert_eq!(read_members(b""), Err(DebError::MalformedContainer));
    assert_eq!(read_members(b"!<arch>"), Err(DebError::MalformedContainer));
}

#[test]
fn header_cut_short_is_malformed() {
    let mut bytes = container(&[(b"a", b"xy")]);
    bytes.extend_from_slice(b"half a header");
    assert_eq!(read_members(&bytes), Err(DebError::MalformedContainer));
}

#[test]
fn wrong_padding_byte_is_malformed() {
    let bytes = raw_container(&[raw_header("a", "1"), b"x!".to_vec(), raw_header("b", "0")]);
    assert_eq!(read_members(&bytes), Err(DebError::MalformedContainer));
}

#[test]
fn size_field_that_is_not_plain_is_malformed() {
    for size in ["", "x", "12x", "+12", " 12", "1 2"] {
        let bytes = raw_container(&[raw_header("a", size), vec![b'x'; 12]]);
        assert_eq!(read_members(&bytes), Err(DebError::MalformedContainer), "{:?}", size);
    }
}

#[test]
fn name_table_reference_is_malformed() {
    let bytes = raw_container(&[raw_header("/5", "2"), b"xy".to_vec()]);
    assert_eq!(read_members(&bytes), Err(DebError::MalformedContainer));
}

#[test]
fn name_table_and_symbol_table_are_malformed() {
    let table = raw_container(&[raw_header("//", "4"), b"ab/\n".to_vec(), raw_header("/0", "0")]);
    assert_eq!(read_members(&table), Err(DebError::MalformedContainer));
    let symbols = raw_container(&[raw_header("/", "4"), vec![0, 0, 0, 0]]);
    assert_eq!(read_members(&symbols), Err(DebError::MalformedContainer));
}

#[test]
fn name_with_a_closing_slash_loses_it() {
    let bytes = raw_container(&[raw_header("debian-binary/", "4"), b"2.0\n".to_vec()]);
    assert_eq!(read_members(&bytes), Ok(vec![member(b"debian-binary", b"2.0\n")]));
}

#[test]
fn long_name_stored_before_the_content_is_malformed() {
    let name: &[u8] = b"a name that is long.tar.gz";
    let bytes = container(&[(name, b"payload"), (b"next", b"n")]);
    assert_eq!(read_members(&bytes), Err(DebError::MalformedContainer));
    let odd = raw_container(&[raw_header("#1/3", "4"), b"abcd\n".to_vec(), raw_header("/9", "0")]);
    assert_eq!(read_members(&odd), Err(DebError::MalformedContainer));
}

#[test]
fn name_that_only_resembles_an_extended_one_is_read() {
    let bytes = container(&[(b"#1", b"x"), (b"#2/", b"yz"), (b"a/b", b"")]);
    assert_eq!(
        read_members(&bytes),
        Ok(vec![member(b"#1", b"x"), member(b"#2", b"yz"), member(b"a/b", b"")])
    );
}

#[test]
fn invalid_number_in_another_field_is_malformed() {
    let mut header = raw_header("a", "0");
    header[16] = b'x';
    assert_eq!(read_members(&raw_container(&[header])), Err(DebError::MalformedContainer));
}

#[test]
fn plain_size_is_digits_then_spaces() {
    assert_eq!(parse_plain_size(b"0         ", 0), Some(0));
    assert_eq!(parse_plain_size(b"1234      ", 0), Some(1234));
    assert_eq!(parse_plain_size(b"9999999999", 0), Some(9_999_999_999));
    assert_eq!(parse_plain_size(b"0000000012", 0), Some(12));
    assert_eq!(parse_plain_size(b"xx42        ", 2), Some(42));
    assert_eq!(parse_plain_size(b"          ", 0), None);
    assert_eq!(parse_plain_size(b" 12       ", 0), None);
    assert_eq!(parse_plain_size(b"12 3      ", 0), None);
    assert_eq!(parse_plain_size(b"12\n       ", 0), None);
    assert_eq!(parse_plain_size(b"-1        ", 0), None);
}

#[test]
fn screening_follows_the_headers() {
    assert!(screen_container(b""));
    assert!(screen_container(b"!<arch>\n"));
    assert!(screen_container(&container(&[(b"a", b"x"), (b"b", b"yz")])));
    assert!(screen_container(&raw_container(&[raw_header("a", "100"), b"short".to_vec()])));
    assert!(!screen_container(&raw_container(&[raw_header("/1", "0")])));
    assert!(!screen_container(&raw_container(&[raw_header("#1/4", "4"), b"name".to_vec()])));
    assert!(screen_container(&raw_container(&[raw_header("#1", "0")])));
    assert!(!screen_container(&raw_container(&[raw_header("a", "zz")])));
    assert!(!screen_container(&raw_container(&[
        raw_header("a", "3"),
        b"xyz\n".to_vec(),
        raw_header("//", "0"),
    ])));
    let slash_in_content =
        raw_container(&[raw_header("a", "60"), vec![b'/'; 60], raw_header("b", "0")]);
    assert!(screen_container(&slash_in_content));
}

#[test]
fn mutated_containers_are_read_or_refused() {
    let seeds: Vec<Vec<u8>> = vec![
        container(&[(b"debian-binary", b"2.0\n"), (b"control.tar.gz", b"abc"), (b"data.tar", b"")]),
        raw_container(&[raw_header("//", "6"), b"long/\n".to_vec(), raw_header("/0", "1"), b"x\n".to_vec()]),
        raw_container(&[raw_header("#1/4", "6"), b"nameab".to_vec(), raw_header("b/", "0")]),
        raw_container(&[raw_header("a/", "3"), b"xyz\n".to_vec(), raw_header("/7", "0")]),
    ];
    let alphabet: &[u8] = b"/#1 0123456789\n`ax";
    let mut state: u64 = 0x2545_F491_4F6C_DD1D;
    let mut next = move || {
        state ^= state << 13;
        state ^= state >> 7;
        state ^= state << 17;
        state
    };
    for seed in &seeds {
        for _ in 0..4000 {
            let mut bytes = seed.clone();
            let changes = 1 + (next() % 4) as usize;
            for _ in 0..changes {
                let at = (next() % bytes.len() as u64) as usize;
                bytes[at] = alphabet[(next() % alphabet.len() as u64) as usize];
            }
            if next() % 8 == 0 {
                let keep = (next() % (bytes.len() as u64 + 1)) as usize;
                bytes.truncate(keep);
            }
            match read_members(&bytes) {
                Ok(members) => assert!(members.len() <= bytes.len() / 60),
                Err(e) => assert_eq!(e, DebError::MalformedContainer),
            }
        }
    }
}
