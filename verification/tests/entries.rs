use aldar::fsutil::is_dot_name;
use aldar::{AldarExt, FileEntry, LpBinaryType};

fn entry(name: &str, canonical: Option<&str>) -> FileEntry {
    FileEntry::posix(
        Some(name.to_string()),
        format!("./{}", name),
        canonical.map(|c| c.to_string()),
        Some(false),
        Some(0o644),
        Some(1),
    )
}

#[test]
fn posix_hidden_is_a_leading_dot() {
    assert!(entry(".hidden", None).is_hidden());
    assert!(entry(".", None).is_hidden());
    assert!(!entry("a.txt", None).is_hidden());
    assert!(!entry("", None).is_hidden());
    assert!(is_dot_name(&Some(".git".to_string())));
    assert!(!is_dot_name(&Some("git.".to_string())));
    assert!(!is_dot_name(&None));
    let nameless = FileEntry::posix(None, "./x".to_string(), None, Some(false), None, None);
    assert!(!nameless.is_hidden());
}

#[test]
fn posix_executable_needs_a_file_with_an_execute_bit() {
    let make = |is_dir: Option<bool>, mode: Option<u32>| {
        FileEntry::posix(Some("x".to_string()), "./x".to_string(), None, is_dir, mode, None)
    };
    assert!(make(Some(false), Some(0o755)).is_executable());
    assert!(make(Some(false), Some(0o100)).is_executable());
    assert!(make(Some(false), Some(0o010)).is_executable());
    assert!(make(Some(false), Some(0o001)).is_executable());
    assert!(!make(Some(false), Some(0o644)).is_executable());
    assert!(!make(Some(true), Some(0o755)).is_executable());
    assert!(!make(None, Some(0o755)).is_executable());
    assert!(!make(Some(false), None).is_executable());
}

#[test]
fn posix_kind_and_size_default_when_unknown() {
    let e = FileEntry::posix(Some("d".to_string()), "./d".to_string(), None, Some(true), None, None);
    assert!(e.is_dir());
    assert_eq!(e.size(), 0);
    let e = FileEntry::posix(Some("f".to_string()), "./f".to_string(), None, None, None, Some(77));
    assert!(!e.is_dir());
    assert_eq!(e.size(), 77);
    assert_eq!(e.path, "./f");
    assert_eq!(e.name, Some("f".to_string()));
    assert_eq!(e.canonical, None);
}

#[test]
fn windows_facts_come_from_attributes_and_probe() {
    let make = |attributes: Option<u32>, binary: Option<LpBinaryType>| {
        FileEntry::windows(
            Some(".x".to_string()),
            "x".to_string(),
            None,
            Some(false),
            attributes,
            binary,
            Some(3),
        )
    };
    assert!(make(Some(0x2), None).is_hidden());
    assert!(make(Some(0x23), None).is_hidden());
    assert!(!make(Some(0x21), None).is_hidden());
    assert!(!make(None, None).is_hidden());
    assert!(make(None, Some(LpBinaryType::SCS_64BIT_BINARY)).is_executable());
    assert!(!make(Some(0x2), None).is_executable());
    assert_eq!(make(None, None).size(), 3);
}

#[test]
fn binary_type_codes() {
    assert_eq!(LpBinaryType::SCS_32BIT_BINARY.code(), 0);
    assert_eq!(LpBinaryType::SCS_DOS_BINARY.code(), 1);
    assert_eq!(LpBinaryType::SCS_WOW_BINARY.code(), 2);
    assert_eq!(LpBinaryType::SCS_PIF_BINARY.code(), 3);
    assert_eq!(LpBinaryType::SCS_POSIX_BINARY.code(), 4);
    assert_eq!(LpBinaryType::SCS_OS216_BINARY.code(), 5);
    assert_eq!(LpBinaryType::SCS_64BIT_BINARY.code(), 6);
    let mut code = 0;
    while code <= 6 {
        assert_eq!(LpBinaryType::from_code(code).map(|k| k.code()), Some(code));
        code += 1;
    }
    assert_eq!(LpBinaryType::from_code(7), None);
    assert_eq!(LpBinaryType::from_code(u32::MAX), None);
}

#[test]
fn display_name_falls_back_to_placeholder() {
    assert_eq!(entry("a.txt", None).display_name(), "a.txt");
    let nameless = FileEntry::posix(None, "./x".to_string(), None, None, None, None);
    assert_eq!(nameless.display_name(), "?");
}

#[test]
fn relative_path_strips_base_and_one_separator() {
    let e = entry("c.txt", Some("/root/b/c.txt"));
    assert_eq!(e.relative_to("/root", '/'), "b/c.txt");
    assert_eq!(e.relative_to("/root/", '/'), "b/c.txt");
    assert_eq!(e.relative_to("/ro", '/'), "ot/b/c.txt");
    assert_eq!(e.relative_to("", '/'), "root/b/c.txt");
    assert_eq!(e.relative_to("/root/b/c.txt", '/'), "");
    assert_eq!(e.relative_to("/root", '\\'), "/b/c.txt");
    let e = entry("c.txt", Some("//c.txt"));
    assert_eq!(e.relative_to("", '/'), "/c.txt");
}

#[test]
fn relative_path_falls_back_to_the_name() {
    let e = entry("c.txt", Some("/root/b/c.txt"));
    assert_eq!(e.relative_to("/other", '/'), "c.txt");
    assert_eq!(e.relative_to("/root/b/c.txt/deeper", '/'), "c.txt");
    let e = entry("c.txt", None);
    assert_eq!(e.relative_to("/root", '/'), "c.txt");
    let nameless = FileEntry::posix(None, "./x".to_string(), None, None, None, None);
    assert_eq!(nameless.relative_to("/root", '/'), "?");
    let nameless =
        FileEntry::posix(None, "./x".to_string(), Some("/a/x".to_string()), None, None, None);
    assert_eq!(nameless.relative_to("/b", '/'), "?");
    assert_eq!(nameless.relative_to("/a", '/'), "x");
}

#[test]
fn full_rel_path_uses_the_platform_separator() {
    let sep = std::path::MAIN_SEPARATOR;
    let canonical = format!("{}root{}b{}c.txt", sep, sep, sep);
    let base = format!("{}root", sep);
    let e = entry("c.txt", Some(&canonical));
    assert_eq!(e.full_rel_path(&base), format!("b{}c.txt", sep));
    assert_eq!(e.full_rel_path("nowhere"), "c.txt");
}
