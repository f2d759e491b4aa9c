use sigmarift::catalog::{
    json_files, profile_name_is_valid, profile_names, profile_path, session_path,
    temporary_file_name, usable_models, DirEntry,
};

fn file(path: &str) -> DirEntry {
    DirEntry {
        path: Some(path.to_owned()),
        is_file: true,
    }
}

#[test]
fn profiles_are_sorted_markdown_names() {
    let entries = vec![
        file("profiles/zeta.md"),
        file("profiles/alpha.MD"),
        file("profiles/ignored.txt"),
        DirEntry {
            path: Some("profiles/folder.md".to_owned()),
            is_file: false,
        },
        DirEntry {
            path: None,
            is_file: true,
        },
    ];
    assert_eq!(profile_names(&entries), vec!["alpha", "zeta"]);
}

#[test]
fn usable_models_are_gguf_files_sorted_by_name() {
    let entries = vec![
        file("models/zeta.gguf"),
        file("models/README.txt"),
        file("models/Alpha.GGUF"),
        DirEntry {
            path: Some("models/dir.gguf".to_owned()),
            is_file: false,
        },
        file("models/beta.gguf"),
    ];
    let models = usable_models(&entries);
    let names: Vec<&str> = models.iter().map(|m| m.name()).collect();
    assert_eq!(names, vec!["Alpha.GGUF", "beta.gguf", "zeta.gguf"]);
    assert_eq!(models[0].path(), "models/Alpha.GGUF");
}

#[test]
fn session_files_are_regular_json_files_in_order() {
    let entries = vec![
        ("sessions/valid.json".to_owned(), true),
        ("sessions/broken.json".to_owned(), true),
        ("sessions/notes.txt".to_owned(), true),
        ("sessions/dir.json".to_owned(), false),
        ("sessions/UPPER.JSON".to_owned(), true),
    ];
    assert_eq!(
        json_files(&entries),
        vec!["sessions/UPPER.JSON", "sessions/broken.json", "sessions/valid.json"]
    );
}

#[test]
fn profile_names_are_single_components() {
    assert!(profile_name_is_valid("coding"));
    assert!(!profile_name_is_valid(""));
    assert!(!profile_name_is_valid("../system"));
    assert!(!profile_name_is_valid("a/b"));
}

#[test]
fn files_of_profiles_and_sessions() {
    assert_eq!(profile_path("coding"), "prompts/profiles/coding.md");
    assert_eq!(session_path("session-1"), "sessions/session-1.json");
}

#[test]
fn temporary_files_are_hidden_and_distinct_per_attempt() {
    assert_eq!(temporary_file_name("state.json", 42, 0), ".state.json.42.0.tmp");
    assert_ne!(
        temporary_file_name("state.json", 42, 1),
        temporary_file_name("state.json", 42, 2)
    );
}
