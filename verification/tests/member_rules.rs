use rustydeb::error::DebError;
use rustydeb::members::{
    destination_subdir, file_name_of, is_tar_candidate, resolve_member_name, select_codec, Codec,
    Destination, SkipReason,
};

#[test]
fn identifier_is_decoded_and_trimmed() {
    assert_eq!(resolve_member_name(b"control.tar.gz  "), Ok("control.tar.gz".to_string()));
    assert_eq!(resolve_member_name(b"  debian-binary\n"), Ok("debian-binary".to_string()));
    assert_eq!(resolve_member_name("d\u{e9}j\u{e0}".as_bytes()), Ok("d\u{e9}j\u{e0}".to_string()));
}

#[test]
fn identifier_that_is_not_utf8_is_skipped() {
    assert_eq!(resolve_member_name(&[0xff, 0xfe, b'a']), Err(SkipReason::NotUtf8));
    assert_eq!(resolve_member_name(&[b'a', 0xc3]), Err(SkipReason::NotUtf8));
    assert_eq!(resolve_member_name(&[0xed, 0xa0, 0x80]), Err(SkipReason::NotUtf8));
}

#[test]
fn identifier_that_is_empty_once_trimmed_is_skipped() {
    assert_eq!(resolve_member_name(b""), Err(SkipReason::EmptyName));
    assert_eq!(resolve_member_name(b"   \t"), Err(SkipReason::EmptyName));
}

#[test]
fn tar_candidates_hold_the_substring() {
    assert!(is_tar_candidate("data.tar"));
    assert!(is_tar_candidate("control.tar.zst"));
    assert!(is_tar_candidate("x.tarball"));
    assert!(!is_tar_candidate("debian-binary"));
    assert!(!is_tar_candidate("data.tgz"));
}

#[test]
fn file_name_is_the_last_segment() {
    assert_eq!(file_name_of("control.tar.gz"), "control.tar.gz");
    assert_eq!(file_name_of("../control.tar.gz"), "control.tar.gz");
    assert_eq!(file_name_of("a/b/c"), "c");
    assert_eq!(file_name_of("a/"), "");
    assert_eq!(file_name_of(""), "");
}

#[test]
fn control_archive_goes_to_control() {
    let expected = Destination { subdir: "control".to_string(), warn: false };
    assert_eq!(destination_subdir("control.tar.xz"), expected);
    assert_eq!(destination_subdir("control.tar.xz"), expected);
    assert_eq!(destination_subdir("control.tar"), expected);
    assert_eq!(destination_subdir("control.tar.gz"), expected);
    assert_eq!(destination_subdir("control.tarball.weird"), expected);
}

#[test]
fn data_archive_goes_to_data() {
    let expected = Destination { subdir: "data".to_string(), warn: false };
    assert_eq!(destination_subdir("data.tar.gz"), expected);
    assert_eq!(destination_subdir("data.tar.zst"), expected);
}

#[test]
fn other_archive_goes_to_what_stands_before_the_first_dot_with_a_warning() {
    assert_eq!(
        destination_subdir("foo.tar.gz"),
        Destination { subdir: "foo".to_string(), warn: true }
    );
    assert_eq!(
        destination_subdir("controls.tar"),
        Destination { subdir: "controls".to_string(), warn: true }
    );
    assert_eq!(destination_subdir(".tar"), Destination { subdir: "".to_string(), warn: true });
}

#[test]
fn name_without_a_dot_goes_to_the_fallback_token() {
    assert_eq!(
        destination_subdir("archive"),
        Destination { subdir: "unknown_tar_content".to_string(), warn: true }
    );
    assert_eq!(
        destination_subdir(""),
        Destination { subdir: "unknown_tar_content".to_string(), warn: true }
    );
}

#[test]
fn codec_follows_the_suffix() {
    assert_eq!(select_codec("data.tar.gz"), Ok(Codec::Gzip));
    assert_eq!(select_codec("control.tar.xz"), Ok(Codec::Xz));
    assert_eq!(select_codec("data.tar"), Ok(Codec::Identity));
    assert_eq!(select_codec(".tar"), Ok(Codec::Identity));
}

#[test]
fn unknown_suffix_is_unsupported_compression() {
    assert_eq!(
        select_codec("data.tar.zst"),
        Err(DebError::UnsupportedCompression { source: "data.tar.zst".to_string() })
    );
    assert_eq!(
        select_codec("data.tar.GZ"),
        Err(DebError::UnsupportedCompression { source: "data.tar.GZ".to_string() })
    );
    assert_eq!(
        select_codec("tar"),
        Err(DebError::UnsupportedCompression { source: "tar".to_string() })
    );
}
