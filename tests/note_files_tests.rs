use note_squirrel::note_files::{note_name_of_file, note_names_from_files};

#[test]
fn markdown_files_are_notes() {
    assert_eq!(note_name_of_file("todo.md"), Some("todo".to_string()));
    assert_eq!(note_name_of_file("x.md.md"), Some("x.md".to_string()));
    assert_eq!(note_name_of_file("é.md"), Some("é".to_string()));
    assert_eq!(note_name_of_file(".md"), None);
    assert_eq!(note_name_of_file("notes.txt"), None);
    assert_eq!(note_name_of_file("md"), None);
}

#[test]
fn note_names_are_sorted() {
    let files = vec![
        "b.md".to_string(),
        "readme.txt".to_string(),
        "Z.md".to_string(),
        "é.md".to_string(),
        "a.md".to_string(),
    ];
    assert_eq!(note_names_from_files(&files), vec!["Z", "a", "b", "é"]);
}

#[test]
fn folder_without_notes_lists_welcome() {
    assert_eq!(note_names_from_files(&vec![]), vec!["Welcome"]);
    assert_eq!(note_names_from_files(&vec!["x.txt".to_string()]), vec!["Welcome"]);
}
