use process_memory::group::RegionGroup;
use process_memory::layout::plan_output;
use process_memory::region::{Mode, VirtMemoryPage};

fn page(from: u64, to: u64, path: &str) -> VirtMemoryPage {
    VirtMemoryPage {
        from,
        to,
        mode: Mode { read: true, write: true, execute: false },
        file_path: path.to_string(),
    }
}

fn group(path: &str, ranges: &[(u64, u64)]) -> RegionGroup {
    RegionGroup { file_path: path.to_string(), pages: ranges.iter().map(|&(f, t)| page(f, t, path)).collect() }
}

#[test]
fn single_region_group_is_flat_with_separators_replaced() {
    let plan = plan_output(&group("/usr/lib/libc.so", &[(0x1000, 0x2000)]), "out");
    assert_eq!(plan.dir, "out");
    assert_eq!(plan.files, vec!["out/_usr_lib_libc.so".to_string()]);
}

#[test]
fn multi_region_group_gets_subdirectory_of_ranges() {
    let plan = plan_output(&group("/usr/lib/libc.so", &[(0x1000, 0x2000), (0x3000, 0x3010)]), "out");
    assert_eq!(plan.dir, "out/usr/lib/libc.so");
    assert_eq!(
        plan.files,
        vec!["out/usr/lib/libc.so/4096-8192".to_string(), "out/usr/lib/libc.so/12288-12304".to_string()]
    );
}

#[test]
fn multi_region_group_without_identity_uses_fallback() {
    let plan = plan_output(&group("", &[(0, 9), (10, 18446744073709551615)]), "memory");
    assert_eq!(plan.dir, "memory/no-name");
    assert_eq!(
        plan.files,
        vec!["memory/no-name/0-9".to_string(), "memory/no-name/10-18446744073709551615".to_string()]
    );
}

#[test]
fn relative_identity_is_joined_with_separator() {
    let plan = plan_output(&group("[heap]", &[(1, 2), (3, 4)]), "m");
    assert_eq!(plan.dir, "m/[heap]");
    assert_eq!(plan.files[1], "m/[heap]/3-4");
}

#[test]
fn single_anonymous_region_has_empty_file_name() {
    let plan = plan_output(&group("", &[(1, 2)]), "m");
    assert_eq!(plan.dir, "m");
    assert_eq!(plan.files, vec!["m/".to_string()]);
}
