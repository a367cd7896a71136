use explorer_core::listing::{
    generate_copy_name, make_entry, plan_enumeration, prepare_directory_stream,
    sort_directory_entries, FileEntry, FileKind,
};
use explorer_core::registry::Registry;

fn file(name: &str) -> FileEntry {
    make_entry(name.to_string(), format!("/root/{}", name), false, 10, String::new())
}

fn dir(name: &str) -> FileEntry {
    make_entry(name.to_string(), format!("/root/{}", name), true, 0, String::new())
}

#[test]
fn test_make_entry_zeroes_directory_size() {
    let d = make_entry("d".to_string(), "/d".to_string(), true, 999, String::new());
    assert!(matches!(d.kind, FileKind::Directory));
    assert_eq!(d.size, 0);
    let f = make_entry("f".to_string(), "/f".to_string(), false, 999, String::new());
    assert!(matches!(f.kind, FileKind::File));
    assert_eq!(f.size, 999);
}

#[test]
fn test_sort_directories_first_then_name_case_insensitive() {
    let entries = vec![file("Beta.txt"), dir("zeta"), file("apple.txt"), dir("Alpha")];
    let sorted = sort_directory_entries(entries);
    let names: Vec<&str> = sorted.iter().map(|e| e.name.as_str()).collect();
    assert_eq!(names, vec!["Alpha", "zeta", "apple.txt", "Beta.txt"]);
}

#[test]
fn test_plan_small_listing_has_no_chunks() {
    let entries: Vec<FileEntry> = (0..100).map(|i| file(&format!("f{:03}.txt", i))).collect();
    let plan = plan_enumeration(entries);
    assert_eq!(plan.total_count, 100);
    assert_eq!(plan.first_page.len(), 100);
    assert!(plan.chunks.is_empty());
}

#[test]
fn test_plan_101_entries_streams_exactly_one() {
    let entries: Vec<FileEntry> = (0..101).map(|i| file(&format!("f{:03}.txt", i))).collect();
    let plan = plan_enumeration(entries);
    assert_eq!(plan.total_count, 101);
    assert_eq!(plan.first_page.len(), 100);
    let streamed: usize = plan.chunks.iter().map(|c| c.len()).sum();
    assert_eq!(streamed, 1);
}

#[test]
fn test_small_listing_never_registers_an_operation() {
    let mut reg = Registry::new();
    let entries: Vec<FileEntry> = (0..42).map(|i| file(&format!("f{:02}.txt", i))).collect();
    let (listing, stream) = prepare_directory_stream(&mut reg, "/root".to_string(), entries);
    assert!(stream.is_none());
    assert_eq!(listing.path, "/root");
    assert_eq!(listing.entries.len(), 42);
    assert!(!reg.contains(1));
}

#[test]
fn test_large_listing_streams_with_one_done_event() {
    let mut reg = Registry::new();
    let entries: Vec<FileEntry> = (0..250).map(|i| file(&format!("f{:03}.txt", i))).collect();
    let (listing, stream) = prepare_directory_stream(&mut reg, "/root".to_string(), entries);
    let (id, events) = stream.expect("a large listing streams its remainder");
    assert!(reg.contains(id));
    assert_eq!(listing.path, format!("/root|listing:{}", id));
    assert_eq!(listing.entries.len(), 100);
    let streamed: usize = events.iter().map(|ev| ev.entries.len()).sum();
    assert_eq!(streamed, 150);
    // Exactly the last event carries done.
    assert_eq!(events.iter().filter(|ev| ev.done).count(), 1);
    assert!(events.last().unwrap().done);
    assert!(events.iter().all(|ev| ev.listing_id == id && ev.total_count == 250));
}

#[test]
fn test_generate_copy_name() {
    let existing: Vec<String> = Vec::new();
    let name = generate_copy_name(&existing, "test.txt", false);
    assert_eq!(name, "test - Copy.txt");

    let existing = vec!["test - Copy.txt".to_string()];
    let name2 = generate_copy_name(&existing, "test.txt", false);
    assert_eq!(name2, "test - Copy (2).txt");
}

#[test]
fn test_generate_copy_name_for_directory_keeps_dots() {
    let existing: Vec<String> = Vec::new();
    let name = generate_copy_name(&existing, "my.folder", true);
    assert_eq!(name, "my.folder - Copy");
}

#[test]
fn test_generate_copy_name_counts_up() {
    let existing = vec![
        "notes - Copy".to_string(),
        "notes - Copy (2)".to_string(),
        "notes - Copy (3)".to_string(),
    ];
    let name = generate_copy_name(&existing, "notes", false);
    assert_eq!(name, "notes - Copy (4)");
}
