use hotreloader::scanner::latest_modification_time;
use hotreloader::scanner::scan;
use hotreloader::tree::FsNode;

fn file(path: &str, mtime: u64) -> FsNode {
    FsNode::File { path: path.to_string(), mtime }
}

fn dir(entries: Vec<FsNode>) -> FsNode {
    FsNode::Dir { entries }
}

#[test]
fn empty_root_scans_to_nothing() {
    let root = dir(vec![]);
    let (changed, total) = scan(&root, 0);
    assert_eq!(changed.len(), 0);
    assert_eq!(total, 0);
}

#[test]
fn old_file_is_not_reported_but_counted() {
    let root = dir(vec![file("a.txt", 100)]);
    let (changed, total) = scan(&root, 100);
    assert_eq!(changed.len(), 0);
    assert_eq!(total, 1);
}

#[test]
fn modified_file_two_levels_deep_is_reported() {
    let root = dir(vec![dir(vec![dir(vec![file("sub/subsub/b.txt", 250)])]), file(
        "a.txt",
        100,
    )]);
    let (changed, total) = scan(&root, 200);
    assert_eq!(total, 2);
    assert_eq!(changed.len(), 1);
    assert_eq!(changed[0].path, "sub/subsub/b.txt");
    assert_eq!(changed[0].mtime, 250);
}

#[test]
fn detection_is_exact_and_in_depth_first_order() {
    let root = dir(vec![
        file("a", 5),
        dir(vec![file("d/b", 50), file("d/c", 7)]),
        file("e", 60),
    ]);
    let (changed, total) = scan(&root, 10);
    assert_eq!(total, 4);
    let paths: Vec<&str> = changed.iter().map(|c| c.path.as_str()).collect();
    assert_eq!(paths, vec!["d/b", "e"]);
    let times: Vec<u64> = changed.iter().map(|c| c.mtime).collect();
    assert_eq!(times, vec![50, 60]);
}

#[test]
fn count_does_not_depend_on_watermark() {
    let root = dir(vec![file("a", 1), file("b", 2), dir(vec![file("d/c", 3)])]);
    let (_, total_low) = scan(&root, 0);
    let (_, total_high) = scan(&root, 1000);
    assert_eq!(total_low, 3);
    assert_eq!(total_high, 3);
}

#[test]
fn skipped_branch_contributes_nothing() {
    let root = dir(vec![FsNode::Skipped, file("a", 9), dir(vec![FsNode::Skipped])]);
    let (changed, total) = scan(&root, 1);
    assert_eq!(total, 1);
    assert_eq!(changed.len(), 1);
    assert_eq!(changed[0].path, "a");
}

#[test]
fn repeated_scans_of_unchanged_tree_agree() {
    let root = dir(vec![file("a", 4), dir(vec![file("d/b", 11)])]);
    let (changed_first, total_first) = scan(&root, 5);
    let (changed_second, total_second) = scan(&root, 5);
    assert_eq!(total_first, total_second);
    assert_eq!(changed_first.len(), changed_second.len());
    for (x, y) in changed_first.iter().zip(changed_second.iter()) {
        assert_eq!(x.path, y.path);
        assert_eq!(x.mtime, y.mtime);
    }
}

#[test]
fn empty_listing_has_epoch_watermark() {
    let mtimes: Vec<u64> = vec![];
    assert_eq!(latest_modification_time(&mtimes), 0);
}

#[test]
fn startup_watermark_is_the_latest_entry_time() {
    let mtimes: Vec<u64> = vec![3, 99, 42];
    assert_eq!(latest_modification_time(&mtimes), 99);
}
