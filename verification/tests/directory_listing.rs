use duskterm::sftp_files::{is_listed_name, page_limit, DirectoryListing, FileEntry};

fn entry(name: &str, is_dir: bool) -> FileEntry {
    FileEntry {
        name: name.to_string(),
        is_dir,
        size: 0,
        modified: 0,
        permissions: 0,
        owner: None,
        group: None,
        editable: false,
        language: "plaintext".to_string(),
    }
}

fn names(entries: &[FileEntry]) -> Vec<&str> {
    entries.iter().map(|e| e.name.as_str()).collect()
}

#[test]
fn batches_are_grouped_and_sorted() {
    let mut listing = DirectoryListing::new();
    listing.add_batch(&[entry("b.txt", false), entry("src", true), entry("a.txt", false)], false);
    listing.add_batch(&[entry("docs", true), entry("0.log", false)], true);
    assert_eq!(names(&listing.directories), vec!["docs", "src"]);
    assert_eq!(names(&listing.files), vec!["0.log", "a.txt", "b.txt"]);
    assert!(listing.exhausted);
}

#[test]
fn a_page_waits_until_enough_is_read() {
    let mut listing = DirectoryListing::new();
    listing.add_batch(&[entry("a", false), entry("b", false), entry("d", true)], false);
    assert!(listing.page(0, 5).is_none());
    let page = listing.page(1, 2).unwrap();
    assert_eq!(names(&page.items), vec!["a", "b"]);
    assert_eq!((page.offset, page.limit, page.next_offset, page.total), (1, 2, 3, 3));
    assert!(page.has_more);
    assert!(!page.total_known);
}

#[test]
fn the_last_page_of_a_read_directory_is_final() {
    let mut listing = DirectoryListing::new();
    listing.add_batch(&[entry("x", false), entry("y", true)], true);
    let page = listing.page(1, 10).unwrap();
    assert_eq!(names(&page.items), vec!["x"]);
    assert_eq!(page.next_offset, 2);
    assert!(!page.has_more);
    assert!(page.total_known);
    let beyond = listing.page(9, 10).unwrap();
    assert!(beyond.items.is_empty());
    assert_eq!(beyond.offset, 2);
}

#[test]
fn page_sizes_and_listed_names() {
    assert_eq!(page_limit(None), 200);
    assert_eq!(page_limit(Some(0)), 1);
    assert_eq!(page_limit(Some(5000)), 1000);
    assert_eq!(page_limit(Some(50)), 50);
    assert!(!is_listed_name("."));
    assert!(!is_listed_name(".."));
    assert!(is_listed_name("...") && is_listed_name(".hidden"));
}

#[test]
fn a_full_listing_shows_directories_first() {
    let ordered = duskterm::sftp_files::listing_order(&[
        entry("zeta.txt", false),
        entry("beta", true),
        entry("Alpha.txt", false),
        entry("alpha", true),
    ]);
    assert_eq!(names(&ordered), vec!["alpha", "beta", "Alpha.txt", "zeta.txt"]);
}
