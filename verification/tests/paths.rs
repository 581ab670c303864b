//! Paths and file names.
use bgumcl::paths::{
    is_safe_relative_modpack_path, is_safe_relative_modpack_path_for, sanitize_relative_path,
    sanitize_relative_path_for, split_file_name, TargetPath,
};

#[test]
fn paths_of_a_modpack_stay_inside() {
    assert_eq!(sanitize_relative_path("mods\\a.jar").unwrap(), "mods/a.jar");
    assert_eq!(sanitize_relative_path("a/./b//c").unwrap(), "a/./b//c");
    for path in ["", "/etc", "\\etc", "../x", "a/../x", "a\\..\\x", "./x", "."] {
        let error = sanitize_relative_path(path).unwrap_err();
        assert_eq!(error.0, format!("Unsafe path in modpack manifest: {}", path));
    }
    assert!(sanitize_relative_path("..a/b..").is_ok());
}

#[test]
fn drives_count_on_windows_only() {
    assert!(sanitize_relative_path_for("C:x", true).is_err());
    assert!(sanitize_relative_path_for("C:x", false).is_ok());
    assert!(sanitize_relative_path_for("1:x", true).is_ok());
}

#[test]
fn paths_of_an_archive_stay_inside() {
    assert!(is_safe_relative_modpack_path("config/a.txt"));
    assert!(is_safe_relative_modpack_path("./a"));
    for path in ["", "/a", "\\a", "C:a", "C:\\a", "a/../b", ".."] {
        assert!(!is_safe_relative_modpack_path(path), "{}", path);
    }
    assert!(is_safe_relative_modpack_path_for("a\\..\\b", false));
    assert!(!is_safe_relative_modpack_path_for("a\\..\\b", true));
}

#[test]
fn file_names_part_at_their_last_dot() {
    let split = |name: &str| split_file_name(name);
    assert_eq!(split("a.tar.gz"), ("a.tar".to_string(), Some("gz".to_string())));
    assert_eq!(split("plain"), ("plain".to_string(), None));
    assert_eq!(split(".hidden"), (".hidden".to_string(), None));
    assert_eq!(split("end."), ("end".to_string(), Some(String::new())));
}

#[test]
fn paths_grow_by_names() {
    let path = TargetPath::at("base").child("a").child("b");
    assert_eq!(path.base, "base");
    assert_eq!(path.segments, vec!["a", "b"]);
    assert_eq!(path.duplicate().segments, vec!["a", "b"]);
}
