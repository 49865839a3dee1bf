use find_duplicate_files::assemble::sort_groups;
use find_duplicate_files::bucket::group_by_size;
use find_duplicate_files::config::{Algorithm, Arguments, ConfigError, ResultFormat, WalkFilter};
use find_duplicate_files::confirm::{confirm_bucket, DuplicateGroup};
use find_duplicate_files::key::{same_digest, Digest, FileInfo, Key};
use find_duplicate_files::walk::{entry_passes, is_hidden, select_files, DirEntryInfo};
use sha2::{Digest as _, Sha256};

fn entry(name: &str, content: &str) -> (DirEntryInfo, Vec<u8>) {
    let e = DirEntryInfo {
        path: name.to_string(),
        components: vec![name.as_bytes().to_vec()],
        is_file: true,
        size: Some(content.len() as u64),
    };
    (e, content.as_bytes().to_vec())
}

fn default_arguments() -> Arguments {
    Arguments {
        algorithm: Algorithm::default(),
        clear_terminal: false,
        full_path: false,
        min_depth: None,
        max_depth: None,
        min_size: None,
        max_size: None,
        omit_hidden: false,
        path: None,
        result_format: ResultFormat::default(),
        sort: false,
        time: false,
        verbose: false,
    }
}

/// Walk filter, size bucketing, hashing with SHA-256 and confirmation, as a run does it.
fn run(tree: &[(DirEntryInfo, Vec<u8>)], args: &Arguments) -> Vec<DuplicateGroup> {
    let filter = args.walk_filter().unwrap();
    let entries: Vec<DirEntryInfo> = tree
        .iter()
        .map(|(e, _)| DirEntryInfo {
            path: e.path.clone(),
            components: e.components.clone(),
            is_file: e.is_file,
            size: e.size,
        })
        .collect();
    let files = select_files(&entries, &filter);
    let mut groups = Vec::new();
    for bucket in group_by_size(files) {
        let hashed: Vec<FileInfo> = bucket
            .into_iter()
            .map(|f| {
                let content = &tree.iter().find(|(e, _)| e.path == f.path).unwrap().1;
                let digest = Sha256::digest(content).to_vec();
                f.with_hash(Some(digest))
            })
            .collect();
        groups.extend(confirm_bucket(&hashed));
    }
    sort_groups(groups, args.sort)
}

fn sample_tree() -> Vec<(DirEntryInfo, Vec<u8>)> {
    vec![
        entry("a.txt", "abcd"),
        entry("b.txt", "abcd"),
        entry("c.txt", "abce"),
        entry("d.txt", "abcde"),
    ]
}

fn sorted_members(g: &DuplicateGroup) -> Vec<String> {
    let mut m = g.members.clone();
    m.sort();
    m
}

#[test]
fn one_group_with_default_filters() {
    let groups = run(&sample_tree(), &default_arguments());
    assert_eq!(groups.len(), 1);
    assert_eq!(groups[0].size, 4);
    assert_eq!(sorted_members(&groups[0]), vec!["a.txt".to_string(), "b.txt".to_string()]);
}

#[test]
fn min_size_five_leaves_no_group() {
    let mut args = default_arguments();
    args.min_size = Some(5);
    let groups = run(&sample_tree(), &args);
    assert!(groups.is_empty());
}

#[test]
fn hidden_file_omitted_or_kept() {
    let mut tree = sample_tree();
    tree.push(entry(".e.txt", "abcd"));
    let mut args = default_arguments();
    args.omit_hidden = true;
    let groups = run(&tree, &args);
    assert_eq!(groups.len(), 1);
    assert_eq!(sorted_members(&groups[0]), vec!["a.txt".to_string(), "b.txt".to_string()]);

    args.omit_hidden = false;
    let groups = run(&tree, &args);
    assert_eq!(groups.len(), 1);
    assert_eq!(
        sorted_members(&groups[0]),
        vec![".e.txt".to_string(), "a.txt".to_string(), "b.txt".to_string()]
    );
}

#[test]
fn hidden_directory_hides_its_files() {
    let inner = DirEntryInfo {
        path: ".cache/a.txt".to_string(),
        components: vec![b".cache".to_vec(), b"a.txt".to_vec()],
        is_file: true,
        size: Some(4),
    };
    assert!(is_hidden(&inner.components));
    let filter = WalkFilter { min_depth: 0, max_depth: usize::MAX, min_size: 0, max_size: u64::MAX, omit_hidden: true };
    assert!(!entry_passes(&inner, &filter));
    let shown = WalkFilter { omit_hidden: false, ..filter };
    assert!(entry_passes(&inner, &shown));
}

#[test]
fn rerun_gives_same_groups() {
    let mut tree = sample_tree();
    tree.push(entry("f.txt", "abcde"));
    let first = run(&tree, &default_arguments());
    tree.reverse();
    let second = run(&tree, &default_arguments());
    let mut a: Vec<Vec<String>> = first.iter().map(sorted_members).collect();
    let mut b: Vec<Vec<String>> = second.iter().map(sorted_members).collect();
    a.sort();
    b.sort();
    assert_eq!(a, b);
    assert_eq!(a.len(), 2);
}

#[test]
fn depth_and_file_type_filters() {
    let filter = WalkFilter { min_depth: 2, max_depth: 3, min_size: 0, max_size: u64::MAX, omit_hidden: false };
    let shallow = DirEntryInfo { path: "a".to_string(), components: vec![b"a".to_vec()], is_file: true, size: Some(1) };
    let deep = DirEntryInfo {
        path: "x/y/z/a".to_string(),
        components: vec![b"x".to_vec(), b"y".to_vec(), b"z".to_vec(), b"a".to_vec()],
        is_file: true,
        size: Some(1),
    };
    let ok = DirEntryInfo { path: "x/a".to_string(), components: vec![b"x".to_vec(), b"a".to_vec()], is_file: true, size: Some(1) };
    let dir = DirEntryInfo { path: "x/d".to_string(), components: vec![b"x".to_vec(), b"d".to_vec()], is_file: false, size: Some(1) };
    let unreadable = DirEntryInfo { path: "x/u".to_string(), components: vec![b"x".to_vec(), b"u".to_vec()], is_file: true, size: None };
    assert!(!entry_passes(&shallow, &filter));
    assert!(!entry_passes(&deep, &filter));
    assert!(entry_passes(&ok, &filter));
    assert!(!entry_passes(&dir, &filter));
    assert!(!entry_passes(&unreadable, &filter));
    let files = select_files(&vec![shallow, deep, ok, dir, unreadable], &filter);
    assert_eq!(files.len(), 1);
    assert_eq!(files[0].path, "x/a");
    assert_eq!(files[0].key.size, 1);
    assert!(matches!(files[0].key.hash, Digest::Pending));
}

#[test]
fn size_range_defaults_and_bounds() {
    let args = default_arguments();
    assert_eq!(args.get_size_range(), 0..=u64::MAX);
    let mut args = default_arguments();
    args.min_size = Some(3);
    args.max_size = Some(9);
    assert_eq!(args.get_size_range(), 3..=9);
    assert_eq!(args.get_depth_range(), (0, usize::MAX));
}

#[test]
fn inconsistent_ranges_are_rejected() {
    let mut args = default_arguments();
    args.min_depth = Some(4);
    args.max_depth = Some(2);
    assert_eq!(args.walk_filter(), Err(ConfigError::DepthRange { min_depth: 4, max_depth: 2 }));
    let mut args = default_arguments();
    args.min_size = Some(10);
    args.max_size = Some(5);
    assert_eq!(args.walk_filter(), Err(ConfigError::SizeRange { min_size: 10, max_size: 5 }));
    let mut args = default_arguments();
    args.omit_hidden = true;
    assert_eq!(
        args.walk_filter(),
        Ok(WalkFilter { min_depth: 0, max_depth: usize::MAX, min_size: 0, max_size: u64::MAX, omit_hidden: true })
    );
}

fn file(path: &str, size: u64, hash: Option<Vec<u8>>) -> FileInfo {
    let digest = match hash {
        Some(h) => Digest::Computed(h),
        None => Digest::Unreadable,
    };
    FileInfo { key: Key::new(size, digest), path: path.to_string() }
}

#[test]
fn buckets_keep_only_shared_sizes() {
    let files = vec![file("a", 4, None), file("b", 5, None), file("c", 4, None), file("d", 6, None), file("e", 6, None)];
    let mut buckets = group_by_size(files);
    buckets.sort_by_key(|b| b[0].key.size);
    assert_eq!(buckets.len(), 2);
    let paths: Vec<Vec<&str>> = buckets.iter().map(|b| b.iter().map(|f| f.path.as_str()).collect()).collect();
    assert_eq!(paths, vec![vec!["a", "c"], vec!["d", "e"]]);
    assert!(group_by_size(Vec::new()).is_empty());
}

#[test]
fn confirmation_splits_by_digest_and_drops_unreadable() {
    let files = vec![
        file("a", 4, Some(vec![1, 2])),
        file("b", 4, Some(vec![1, 3])),
        file("c", 4, Some(vec![1, 2])),
        file("d", 4, None),
        file("e", 4, Some(vec![1, 3])),
        file("f", 4, Some(vec![9])),
    ];
    let groups = confirm_bucket(&files);
    assert_eq!(groups.len(), 2);
    assert_eq!(groups[0].members, vec!["a".to_string(), "c".to_string()]);
    assert_eq!(groups[0].hash, vec![1, 2]);
    assert_eq!(groups[1].members, vec!["b".to_string(), "e".to_string()]);
    let lone = vec![file("a", 4, Some(vec![1])), file("b", 4, None)];
    assert!(confirm_bucket(&lone).is_empty());
    let pending = vec![
        FileInfo { key: Key::new(4, Digest::Pending), path: "p".to_string() },
        FileInfo { key: Key::new(4, Digest::Pending), path: "q".to_string() },
    ];
    assert!(confirm_bucket(&pending).is_empty());
    let sizes = vec![file("a", 4, Some(vec![1])), file("b", 5, Some(vec![1]))];
    assert!(confirm_bucket(&sizes).is_empty());
}

#[test]
fn attaching_a_digest_keeps_path_and_size() {
    let pending = FileInfo { key: Key::new(7, Digest::Pending), path: "a".to_string() };
    let f = pending.with_hash(Some(vec![5, 6]));
    assert_eq!(f.path, "a");
    assert_eq!(f.key.size, 7);
    assert!(matches!(&f.key.hash, Digest::Computed(h) if h == &vec![5, 6]));
    let g = f.with_hash(None);
    assert!(matches!(g.key.hash, Digest::Unreadable));
    assert!(same_digest(&vec![1, 2], &vec![1, 2]));
    assert!(!same_digest(&vec![1, 2], &vec![1, 3]));
    assert!(!same_digest(&vec![1], &vec![1, 2]));
}

fn group(size: u64, n: usize, tag: &str) -> DuplicateGroup {
    DuplicateGroup { size, hash: vec![], members: (0..n).map(|i| format!("{tag}{i}")).collect() }
}

#[test]
fn sort_by_size_is_descending_and_stable() {
    let groups = vec![group(3, 2, "a"), group(9, 2, "b"), group(3, 4, "c"), group(5, 3, "d")];
    let sorted = sort_groups(groups, false);
    let tags: Vec<&str> = sorted.iter().map(|g| &g.members[0][..1]).collect();
    assert_eq!(tags, vec!["b", "d", "a", "c"]);
}

#[test]
fn sort_by_count_is_descending_and_stable() {
    let groups = vec![group(3, 2, "a"), group(9, 2, "b"), group(3, 4, "c"), group(5, 3, "d")];
    let sorted = sort_groups(groups, true);
    let tags: Vec<&str> = sorted.iter().map(|g| &g.members[0][..1]).collect();
    assert_eq!(tags, vec!["c", "d", "a", "b"]);
    assert!(sort_groups(Vec::new(), true).is_empty());
}

#[test]
fn defaults_of_enums() {
    assert_eq!(ResultFormat::default(), ResultFormat::Personal);
    assert_eq!(Algorithm::default(), Algorithm::Sha256);
}
