use aldar::paint::{paint, EntryStyle};

#[test]
fn names_come_back_unchanged_when_colours_are_off() {
    colored::control::set_override(false);
    for style in [
        EntryStyle::Plain,
        EntryStyle::Directory,
        EntryStyle::HiddenDirectory,
        EntryStyle::Executable,
        EntryStyle::HiddenFile,
    ] {
        assert_eq!(paint("name".to_string(), style), "name");
        assert_eq!(paint(String::new(), style), "");
        assert_eq!(paint("│ ü".to_string(), style), "│ ü");
    }
}
