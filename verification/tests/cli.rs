use phy6_token_saver::cli::{command_of, physics_mode, Command};
use phy6_token_saver::document::document_name;
use phy6_token_saver::numbers::hex16;

fn args(v: &[&str]) -> Vec<String> {
    v.iter().map(|s| s.to_string()).collect()
}

#[test]
fn commands_are_read_without_regard_to_case() {
    assert!(matches!(command_of(&args(&["prog"])), Command::Usage));
    assert!(matches!(command_of(&args(&["prog", "MCP"])), Command::Mcp));
    assert!(matches!(command_of(&args(&["prog", "List"])), Command::List));
    assert!(matches!(command_of(&args(&["prog", "clear"])), Command::Clear));
    assert!(matches!(command_of(&args(&["prog", "STATUS"])), Command::Status));
    assert!(matches!(command_of(&args(&["prog", "help"])), Command::Help));
    assert!(matches!(command_of(&args(&["prog", "bogus"])), Command::Unknown));
}

#[test]
fn ingest_needs_a_file() {
    assert!(matches!(command_of(&args(&["prog", "ingest"])), Command::Unknown));
    match command_of(&args(&["prog", "Ingest", "notes.txt"])) {
        Command::Ingest(p) => assert_eq!(p, "notes.txt"),
        _ => panic!("ingest expected"),
    }
}

#[test]
fn search_command_takes_query_and_count() {
    match command_of(&args(&["prog", "search", "surface", "codes", "7"])) {
        Command::Search(q, k) => {
            assert_eq!(q, "surface codes");
            assert_eq!(k, 7);
        }
        _ => panic!("search expected"),
    }
    match command_of(&args(&["prog", "search"])) {
        Command::Search(q, k) => {
            assert_eq!(q, "");
            assert_eq!(k, 5);
        }
        _ => panic!("search expected"),
    }
}

#[test]
fn documents_are_named_by_stem_and_time() {
    assert_eq!(document_name("/tmp/physics_saver_mcp_doc.txt", 255), "physics_saver_mcp_doc-00000000000000ff");
    assert_eq!(document_name("/tmp/archive.tar.gz", 0), "archive.tar-0000000000000000");
    assert_eq!(document_name("/", 1), "doc-0000000000000001");
    assert_eq!(document_name("notes", u64::MAX), "notes-ffffffffffffffff");
}

#[test]
fn hex_digits_are_padded_to_sixteen() {
    for n in [0u64, 10, 0xdead_beef, u64::MAX] {
        let s: String = hex16(n).into_iter().collect();
        assert_eq!(s, format!("{:016x}", n));
    }
}

#[test]
fn physics_mode_settings() {
    for v in ["1", "true", "yes"] {
        assert!(physics_mode(&v.to_string()), "{}", v);
    }
    for v in ["0", "TRUE", "Yes", "", "on"] {
        assert!(!physics_mode(&v.to_string()), "{}", v);
    }
}
