use rustydeb::error::DebError;
use rustydeb::input::{classify_input, get_deb_file};

#[test]
fn missing_file_is_not_found() {
    let expected = Err(DebError::FileNotFound { path: "nowhere.deb".to_string() });
    assert_eq!(classify_input("nowhere.deb", false, false, Some("deb")), expected);
    assert_eq!(get_deb_file("nowhere.deb", false, false), expected);
}

#[test]
fn missing_file_comes_before_the_other_checks() {
    assert_eq!(
        classify_input("x.txt", false, true, Some("txt")),
        Err(DebError::FileNotFound { path: "x.txt".to_string() })
    );
}

#[test]
fn directory_is_not_a_file() {
    let expected = Err(DebError::NotAFile { path: "dir.deb".to_string() });
    assert_eq!(classify_input("dir.deb", true, false, Some("deb")), expected);
    assert_eq!(get_deb_file("dir.deb", true, false), expected);
    assert_eq!(
        classify_input("dir", true, false, None),
        Err(DebError::NotAFile { path: "dir".to_string() })
    );
}

#[test]
fn other_extension_is_wrong_extension() {
    let expected = Err(DebError::WrongExtension { path: "pkg.rpm".to_string() });
    assert_eq!(classify_input("pkg.rpm", true, true, Some("rpm")), expected);
    assert_eq!(get_deb_file("pkg.rpm", true, true), expected);
    assert_eq!(
        classify_input("pkg", true, true, None),
        Err(DebError::WrongExtension { path: "pkg".to_string() })
    );
    assert_eq!(
        classify_input("pkg.DEB", true, true, Some("DEB")),
        Err(DebError::WrongExtension { path: "pkg.DEB".to_string() })
    );
    assert_eq!(
        get_deb_file("deb", true, true),
        Err(DebError::WrongExtension { path: "deb".to_string() })
    );
}

#[test]
fn the_three_input_failures_are_distinct() {
    let missing = get_deb_file("p.deb", false, false).unwrap_err();
    let directory = get_deb_file("p.deb", true, false).unwrap_err();
    let extension = get_deb_file("p.txt", true, true).unwrap_err();
    assert_ne!(missing, directory);
    assert_ne!(missing, extension);
    assert_ne!(directory, extension);
}

#[test]
fn regular_deb_file_is_accepted() {
    assert_eq!(classify_input("pkg.deb", true, true, Some("deb")), Ok(()));
    assert_eq!(get_deb_file("pkg.deb", true, true), Ok(()));
    assert_eq!(get_deb_file("/tmp/some.dir/pkg_1.0.deb", true, true), Ok(()));
}
