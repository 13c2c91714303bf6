use process_memory::group::{group_by, retain_read_write, RegionGroup};
use process_memory::region::{Mode, VirtMemoryPage};

fn page(from: u64, to: u64, read: bool, write: bool, execute: bool, path: &str) -> VirtMemoryPage {
    VirtMemoryPage { from, to, mode: Mode { read, write, execute }, file_path: path.to_string() }
}

fn find<'a>(groups: &'a [RegionGroup], key: &str) -> &'a RegionGroup {
    groups.iter().find(|g| g.file_path == key).expect("group present")
}

#[test]
fn filter_keeps_exactly_read_write_regions() {
    let pages = vec![
        page(0x1000, 0x2000, true, false, false, "a"),
        page(0x2000, 0x3000, true, true, false, "b"),
        page(0x3000, 0x4000, true, true, true, "c"),
        page(0x4000, 0x5000, false, true, false, "d"),
        page(0x5000, 0x6000, false, false, true, "e"),
        page(0x6000, 0x7000, false, false, false, "f"),
    ];
    let kept = retain_read_write(pages);
    let names: Vec<&str> = kept.iter().map(|p| p.file_path.as_str()).collect();
    assert_eq!(names, vec!["b", "c"]);
}

#[test]
fn filter_of_empty_is_empty() {
    assert!(retain_read_write(Vec::new()).is_empty());
}

#[test]
fn grouping_partitions_by_exact_identity() {
    let pages = vec![
        page(1, 2, true, true, false, "/lib/x"),
        page(2, 3, true, true, false, ""),
        page(3, 4, true, true, false, "/lib/x"),
        page(4, 5, true, true, false, "/lib/x "),
        page(5, 6, true, true, false, "[heap]"),
    ];
    let groups = group_by(pages);
    assert_eq!(groups.len(), 4);
    let x = find(&groups, "/lib/x");
    assert_eq!(x.pages.iter().map(|p| p.from).collect::<Vec<_>>(), vec![1, 3]);
    assert_eq!(find(&groups, "/lib/x ").pages.len(), 1);
    assert_eq!(find(&groups, "").pages[0].from, 2);
    assert_eq!(find(&groups, "[heap]").pages[0].from, 5);
    let total: usize = groups.iter().map(|g| g.pages.len()).sum();
    assert_eq!(total, 5);
}

#[test]
fn grouping_of_empty_is_empty() {
    assert!(group_by(Vec::new()).is_empty());
}
