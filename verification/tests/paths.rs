use hierarchy_engine::id_to_path;
use hierarchy_engine::paths::encode;

#[test]
fn test_id_to_path() {
    let path = id_to_path("//Root/Test/Fortiu");
    assert_eq!("Root", path[0]);
    assert_eq!("Test", path[1]);
    assert_eq!("Fortiu", path[2]);
}

#[test]
fn id_to_path_empty_input_yields_empty_path() {
    assert!(id_to_path("").is_empty());
}

#[test]
fn id_to_path_root_yields_empty_path() {
    assert!(id_to_path("/").is_empty());
    assert!(id_to_path("///").is_empty());
}

#[test]
fn id_to_path_drops_empty_segments() {
    let path = id_to_path("a//b/");
    assert_eq!(path, vec!["a".to_string(), "b".to_string()]);
}

#[test]
fn id_to_path_single_segment_without_slash() {
    let path = id_to_path("Dossier");
    assert_eq!(path, vec!["Dossier".to_string()]);
}

#[test]
fn encode_concatenates_parent_slash_segment() {
    assert_eq!(encode("/Dossier", "Item 1"), "/Dossier/Item 1");
    assert_eq!(encode("", "Dossier"), "/Dossier");
}

#[test]
fn decode_of_encode_ends_with_the_segment() {
    let cases = [("/", "leaf"), ("", "x"), ("/a/b", "c d"), ("weird//", "tail")];
    for (parent, segment) in cases {
        let id = encode(parent, segment);
        let path = id_to_path(&id);
        assert!(!path.is_empty());
        assert_eq!(path.last().unwrap(), segment);
    }
}
