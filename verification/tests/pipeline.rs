use fasthtcacheclean::apache_cache::Abi;
use fasthtcacheclean::cache_file_info::CacheFileInfo;
use fasthtcacheclean::evict::{process_folder_parallel, DeleteStep};
use fasthtcacheclean::paths::join;
use fasthtcacheclean::scan::{
    process_folder, DirScan, FileFacts, FileKind, LoadedHeader, RemoveOutcome, ScanContext, Step,
};
use fasthtcacheclean::stats::Stats;
use fasthtcacheclean::timestamp::Timestamp;
use fasthtcacheclean::usage::{Pressure, Usage};
use std::collections::BTreeMap;

const NOW: i64 = 1_700_000_000;

#[derive(Clone, Debug, PartialEq)]
enum Node {
    File { content: Vec<u8>, age: i64 },
    Dir { age: i64 },
}

/// A tree of files and folders in memory, by path from the root `.`.
#[derive(Clone, Debug, PartialEq)]
struct Tree {
    nodes: BTreeMap<Vec<u8>, Node>,
    removed: Vec<Vec<u8>>,
}

impl Tree {
    fn new() -> Tree {
        let mut nodes = BTreeMap::new();
        nodes.insert(b".".to_vec(), Node::Dir { age: 0 });
        Tree { nodes, removed: Vec::new() }
    }

    fn dir(mut self, path: &str, age: i64) -> Tree {
        self.nodes.insert(path.as_bytes().to_vec(), Node::Dir { age });
        self
    }

    fn file(mut self, path: &str, content: Vec<u8>, age: i64) -> Tree {
        self.nodes.insert(path.as_bytes().to_vec(), Node::File { content, age });
        self
    }

    fn names(&self, dir: &[u8]) -> Option<Vec<Vec<u8>>> {
        match self.nodes.get(dir) {
            Some(Node::Dir { .. }) => {},
            _ => return None,
        }
        let mut prefix = dir.to_vec();
        prefix.push(b'/');
        Some(
            self.nodes
                .keys()
                .filter(|path| path.starts_with(&prefix) && !path[prefix.len()..].contains(&b'/'))
                .map(|path| path[prefix.len()..].to_vec())
                .collect(),
        )
    }

    fn facts(&self, path: &[u8]) -> Option<FileFacts> {
        let (kind, nlink, age) = match self.nodes.get(path)? {
            Node::File { age, .. } => (FileKind::File, 1, *age),
            Node::Dir { age } => {
                let folders = self
                    .names(path)
                    .unwrap()
                    .iter()
                    .filter(|name| matches!(self.nodes.get(&join(path, name)), Some(Node::Dir { .. })))
                    .count();
                (FileKind::Directory, 2 + folders as u64, *age)
            },
        };
        Some(FileFacts {
            kind,
            nlink,
            modified: Timestamp::from_unix(NOW - age, 0),
            accessed: Some(Timestamp::from_unix(NOW - age, 0)),
        })
    }

    fn load(&self, path: &[u8]) -> Option<LoadedHeader> {
        match self.nodes.get(path)? {
            Node::File { content, age } => Some(LoadedHeader {
                modified: Timestamp::from_unix(NOW - age, 0),
                accessed: Some(Timestamp::from_unix(NOW - age, 0)),
                prefix: content.clone(),
            }),
            Node::Dir { .. } => None,
        }
    }

    fn remove_file(&mut self, path: &[u8]) -> bool {
        match self.nodes.get(path) {
            Some(Node::File { .. }) => {
                self.nodes.remove(path);
                self.removed.push(path.to_vec());
                true
            },
            _ => false,
        }
    }

    fn remove_dir(&mut self, path: &[u8], not_empty: i32) -> RemoveOutcome {
        match self.names(path) {
            Some(names) if names.is_empty() => {
                self.nodes.remove(path);
                self.removed.push(path.to_vec());
                RemoveOutcome::Removed
            },
            Some(_) => RemoveOutcome::Failed { os_error: Some(not_empty) },
            None => RemoveOutcome::Failed { os_error: None },
        }
    }

    fn has(&self, path: &str) -> bool {
        self.nodes.contains_key(path.as_bytes())
    }
}

fn header(tag: u32, expiry: i64) -> Vec<u8> {
    let abi = Abi::native();
    let mut bytes = tag.to_ne_bytes().to_vec();
    if tag == 6 {
        bytes.extend_from_slice(&vec![0; abi.c_int_size + 2 * abi.pointer_size + 8]);
    }
    bytes.extend_from_slice(&((expiry as u64) * 1_000_000).to_ne_bytes());
    bytes
}

/// Goes through one directory as the scan says.
fn scan_dir(tree: &mut Tree, mut scan: DirScan, found: &mut Vec<CacheFileInfo>, dir: &[u8], context: ScanContext) -> Result<Stats, ()> {
    let names = tree.names(dir).ok_or(())?;
    for name in names {
        let path = join(dir, &name);
        let mut step = scan.entry(&name);
        loop {
            assert!(scan.has_room());
            step = match step {
                Step::Done => break,
                Step::StatFile { seconds } => scan.file_facts(tree.facts(&path), seconds),
                Step::RemoveFile => scan.file_removed(tree.remove_file(&path)),
                Step::LoadHeader { path: asked } => {
                    assert_eq!(asked, path);
                    scan.header_loaded(asked, tree.load(&path))
                },
                Step::RemoveData { info, data_path } => {
                    let removed = tree.remove_file(&data_path);
                    scan.data_removed(info, removed)
                },
                Step::StatVaryDir { info, vary_path } => scan.vary_facts(info, tree.facts(&vary_path)),
                Step::Send { info } => {
                    found.push(info);
                    break;
                },
                Step::CheckHeader { header_path } => {
                    scan.header_exists(tree.nodes.contains_key(&header_path))
                },
                Step::StatEntry => scan.entry_facts(&name, tree.facts(&path)),
                Step::Recurse { path: below, in_vary, facts } => {
                    assert_eq!(below, path);
                    let nested = scan.nested(below.clone(), in_vary);
                    let result = scan_dir(tree, nested, found, &below, ScanContext { in_vary, ..context });
                    assert!(scan.can_take(&result));
                    scan.subscan_done(result, facts)
                },
                Step::StatFolder => scan.folder_facts(tree.facts(&path)),
                Step::RemoveFolder => scan.folder_removed(tree.remove_dir(&path, context.not_empty_errno)),
            };
        }
    }
    Ok(scan.finish())
}

fn usage_of(percent: u64) -> Usage {
    Usage {
        space: Pressure { used: percent * 10, target: 999 },
        inodes: Pressure { used: 0, target: 999 },
    }
}

/// Runs the whole cleanup on the tree; `usage` says how full the filesystem
/// is whenever it is asked.
fn run(tree: &mut Tree, jobs: usize, usage: &mut dyn FnMut(&Tree) -> Usage) -> Stats {
    let now = Timestamp::from_unix(NOW, 0);
    let context = ScanContext::native(now, false, false);
    let sweep = DirScan::tempfiles(b".".to_vec(), now);
    let swept = scan_dir(tree, sweep, &mut Vec::new(), b".", ScanContext { tempfiles_only: true, ..context }).unwrap();
    let folders = tree.names(b".").unwrap();
    let plan = process_folder_parallel(folders, jobs, swept);
    assert!(plan.chunks.len() <= jobs);
    let mut evictor = plan.evictor;
    let mut found = Vec::new();
    for chunk in plan.chunks {
        let measured = usage(tree);
        for name in chunk {
            let path = join(b".", &name);
            let scan = process_folder(path.clone(), &measured, now);
            let worker = ScanContext { desperate: measured.is_desperate(), ..context };
            let result = scan_dir(tree, scan, &mut found, &path, worker);
            assert!(evictor.can_merge(&result));
            evictor.merge_result(result);
        }
    }
    for info in found {
        evictor.found(info);
    }
    let mut deletion = evictor.into_deletion();
    loop {
        match deletion.next() {
            DeleteStep::Finished => break,
            DeleteStep::CheckUsage => {
                deletion.usage_checked(&usage(tree));
            },
            DeleteStep::Remove(removal) => {
                tree.remove_file(&removal.data_path);
                let removed = tree.remove_file(&removal.header_path);
                assert!(deletion.has_room());
                deletion.removed(removed);
            },
        }
    }
    deletion.finish()
}

fn counts(stats: Stats) -> (u64, u64, u64) {
    (stats.deleted, stats.deleted_folders, stats.failed)
}

/// An old temporary file at the root of the cache is removed.
#[test]
fn scenario_tempfile_aging() {
    let mut tree = Tree::new().file("./aptmpABCDEF", Vec::new(), 601);
    let stats = run(&mut tree, 2, &mut |_| usage_of(100));
    assert_eq!(counts(stats), (1, 0, 0));
    assert!(!tree.has("./aptmpABCDEF"));
}

/// A fresh temporary file is not removed.
#[test]
fn scenario_tempfile_too_fresh() {
    let mut tree = Tree::new().dir("./ab", 0).file("./ab/aptmpABCDEF", Vec::new(), 599);
    let stats = run(&mut tree, 2, &mut |_| usage_of(100));
    assert_eq!(counts(stats), (0, 0, 0));
    assert!(tree.has("./ab/aptmpABCDEF"));
    let mut tree = Tree::new().file("./aptmpABCDEF", Vec::new(), 599);
    let stats = run(&mut tree, 2, &mut |_| usage_of(100));
    assert_eq!(stats.deleted, 0);
    assert!(tree.has("./aptmpABCDEF"));
}

/// While the filesystem stays full, entries are deleted in eviction order,
/// valid ones too.
#[test]
fn scenario_disk_header() {
    let mut tree = Tree::new()
        .dir("./ab", 0)
        .file("./ab/x.header", header(6, NOW + 3600), 50)
        .file("./ab/x.data", vec![1, 2, 3], 50);
    let stats = run(&mut tree, 1, &mut |_| usage_of(100));
    assert_eq!(counts(stats), (1, 0, 0));
    assert_eq!(tree.removed, vec![b"./ab/x.data".to_vec(), b"./ab/x.header".to_vec()]);

    let mut tree = Tree::new()
        .dir("./ab", 0)
        .dir("./cd", 0)
        .file("./ab/x.header", header(6, NOW + 3600), 50)
        .file("./ab/x.data", vec![1, 2, 3], 50)
        .file("./cd/y.header", header(6, NOW - 10000), 20000)
        .file("./cd/y.data", vec![1, 2, 3], 20000);
    let stats = run(&mut tree, 4, &mut |_| usage_of(100));
    assert_eq!(counts(stats), (2, 0, 0));
    assert_eq!(
        tree.removed,
        vec![
            b"./cd/y.data".to_vec(),
            b"./cd/y.header".to_vec(),
            b"./ab/x.data".to_vec(),
            b"./ab/x.header".to_vec(),
        ]
    );
}

/// Deleting stops once the usage has fallen below 99 %, which is looked at
/// after every ten entries.
#[test]
fn deleting_stops_when_usage_falls() {
    let mut tree = Tree::new().dir("./ab", 0);
    for i in 0..35 {
        tree = tree.file(&format!("./ab/{:02}.header", i), header(6, NOW - 1000 + i), 5000);
    }
    let mut usage = |tree: &Tree| if tree.removed.len() >= 20 { usage_of(98) } else { usage_of(100) };
    let stats = run(&mut tree.clone(), 1, &mut usage);
    assert_eq!(counts(stats), (20, 0, 0));
    let stats = run(&mut tree.clone(), 1, &mut |_| usage_of(98));
    assert_eq!(counts(stats), (10, 0, 0));
    let stats = run(&mut tree.clone(), 1, &mut |_| usage_of(100));
    assert_eq!(counts(stats), (35, 0, 0));
    let mut first = tree.clone();
    run(&mut first, 1, &mut |_| usage_of(98));
    let expected: Vec<Vec<u8>> = (0..10).map(|i| format!("./ab/{:02}.header", i).into_bytes()).collect();
    assert_eq!(first.removed, expected);
}

/// A data file without a header is removed once it is old.
#[test]
fn scenario_orphan_data() {
    let mut tree = Tree::new().dir("./ab", 0).file("./ab/z.data", vec![0], 121);
    let stats = run(&mut tree, 1, &mut |_| usage_of(100));
    assert_eq!(counts(stats), (1, 0, 0));
    assert!(!tree.has("./ab/z.data"));
    let mut tree = Tree::new().dir("./ab", 0).file("./ab/z.data", vec![0], 119);
    let stats = run(&mut tree, 1, &mut |_| usage_of(100));
    assert_eq!(counts(stats), (0, 0, 0));
    assert!(tree.has("./ab/z.data"));
}

fn vary_tree() -> Tree {
    Tree::new()
        .dir("./ab", 0)
        .file("./ab/v.header", header(5, NOW - 10), 1000)
        .file("./ab/v.data", vec![0], 1000)
        .dir("./ab/v.header.vary", 1000)
        .dir("./ab/v.header.vary/sub", 0)
}

/// The header of a directory of variants with subfolders is protected, its
/// data file is not.
#[test]
fn scenario_vary_protection() {
    let mut tree = vary_tree();
    let stats = run(&mut tree, 1, &mut |_| usage_of(100));
    assert_eq!(counts(stats), (1, 0, 0));
    assert!(!tree.has("./ab/v.data"));
    assert!(tree.has("./ab/v.header"));
    assert!(tree.has("./ab/v.header.vary"));
    assert!(tree.has("./ab/v.header.vary/sub"));
}

/// Above 105 % the protection is given up.
#[test]
fn scenario_desperate_escalation() {
    let mut tree = vary_tree();
    let stats = run(&mut tree, 1, &mut |_| usage_of(106));
    assert_eq!(counts(stats), (2, 0, 0));
    assert!(!tree.has("./ab/v.data"));
    assert!(!tree.has("./ab/v.header"));
    assert!(tree.has("./ab/v.header.vary/sub"));
}

/// An empty old folder is removed, and its parent stays for this run.
#[test]
fn empty_folders_are_removed() {
    let mut tree = Tree::new().dir("./ab", 400).dir("./ab/cd", 400).dir("./ab/ef", 200);
    let stats = run(&mut tree, 1, &mut |_| usage_of(100));
    assert_eq!(counts(stats), (0, 1, 0));
    assert!(!tree.has("./ab/cd"));
    assert!(tree.has("./ab/ef"));
    assert!(tree.has("./ab"));
}

/// A second run on a tree that the first run left clean deletes nothing and
/// changes nothing.
#[test]
fn second_run_changes_nothing() {
    for mut tree in [Tree::new(), Tree::new().dir("./ab", 0), vary_tree()] {
        run(&mut tree, 3, &mut |_| usage_of(100));
        let mut after = tree.clone();
        after.removed.clear();
        let before = after.clone();
        let stats = run(&mut after, 3, &mut |_| usage_of(100));
        assert_eq!(stats.deleted, 0);
        assert_eq!(stats.deleted_folders, 0);
        assert_eq!(after, before);
    }
}

/// A file at the root of the cache is no folder: its scan fails.
#[test]
fn files_at_the_root_fail() {
    let mut tree = Tree::new().file("./stray", Vec::new(), 0).dir("./ab", 0);
    let stats = run(&mut tree, 1, &mut |_| usage_of(100));
    assert_eq!(counts(stats), (0, 0, 1));
}
