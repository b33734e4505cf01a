use std::collections::HashMap;

use splitype_editor::worktree_rules::{
    assign_stable_ids, IdIndex, ScanEntry,
    is_ignored_entry, is_markdown_extension, skips_entry, stable_entry_id,
    unix_file_id, windows_file_id,
};

#[test]
fn ignored_and_hidden_entries() {
    for name in ["node_modules", "target", "dist", "build", ".git"] {
        assert!(is_ignored_entry(name), "{name}");
        assert!(skips_entry(name, false), "{name}");
    }
    assert!(!is_ignored_entry("src"));
    assert!(!is_ignored_entry("Target"));
    assert!(skips_entry(".hidden", true));
    assert!(!skips_entry(".hidden", false));
    assert!(!skips_entry("notes.md", true));
    assert!(!skips_entry("", true));
}

#[test]
fn markdown_extensions_ignore_case() {
    assert!(is_markdown_extension("md"));
    assert!(is_markdown_extension("MD"));
    assert!(is_markdown_extension("Markdown"));
    assert!(!is_markdown_extension("mdx"));
    assert!(!is_markdown_extension("txt"));
    assert!(!is_markdown_extension(""));
}

#[test]
fn file_ids_mix_device_and_inode() {
    assert_eq!(unix_file_id(0, 5), None);
    assert_eq!(unix_file_id(5, 0), None);
    assert_eq!(unix_file_id(1, 2), Some(1 ^ 2u64.rotate_left(32)));
    assert_eq!(unix_file_id(7, 0x1_0000_0003), Some(7 ^ 0x3_0000_0001));
    let index = (9u64 << 32) | 4;
    assert_eq!(windows_file_id(3, 9, 4), 3 ^ index.rotate_left(32));
}

#[test]
fn entries_keep_their_ids() {
    assert_eq!(stable_entry_id(true, 1, Some(5), Some(6)), Some(1));
    assert_eq!(stable_entry_id(false, 1, Some(5), Some(6)), Some(5));
    assert_eq!(stable_entry_id(false, 1, None, Some(6)), Some(6));
    assert_eq!(stable_entry_id(false, 1, None, None), None);
}

#[test]
fn rescans_reuse_ids_by_path_then_by_file_then_draw_fresh_ones() {
    let mut old = IdIndex { id_for_path: HashMap::new(), path_for_id: HashMap::new(), inode_to_id: HashMap::new() };
    old.id_for_path.insert(10, 100);
    old.path_for_id.insert(100, 10);
    old.inode_to_id.insert(77, 200);
    let entries = vec![
        ScanEntry { path_key: 1, inode: None },        // the root
        ScanEntry { path_key: 10, inode: Some(5) },    // same path
        ScanEntry { path_key: 11, inode: Some(77) },   // renamed file
        ScanEntry { path_key: 12, inode: Some(78) },   // new file
        ScanEntry { path_key: 13, inode: None },       // new file
    ];
    let (ids, next, out) = assign_stable_ids(&old, &entries, 500, 1, 9);
    assert_eq!(ids, vec![9, 100, 200, 500, 501]);
    assert_eq!(next, 502);
    assert_eq!(out.id_for_path.get(&12), Some(&500));
    assert_eq!(out.path_for_id.get(&200), Some(&11));
    assert_eq!(out.inode_to_id.get(&5), Some(&100));
    assert_eq!(out.inode_to_id.len(), 3);
    // The counter wraps at the top.
    let (wrapped, after, _) = assign_stable_ids(&old, &vec![ScanEntry { path_key: 50, inode: None }], u64::MAX, 1, 9);
    assert_eq!(wrapped, vec![u64::MAX]);
    assert_eq!(after, 0);
}
