use mine_autobackup::walk::{count_files, plan_archive, total_bytes, FsEntry, NamedEntry, ZipOp};

fn file(size: u64) -> FsEntry {
    FsEntry::File { size }
}

fn dir(children: Vec<NamedEntry>) -> FsEntry {
    FsEntry::Dir { children }
}

fn named(name: &str, entry: FsEntry) -> NamedEntry {
    NamedEntry { name: name.to_string(), entry }
}

fn entries(v: Vec<FsEntry>) -> Vec<NamedEntry> {
    v.into_iter().enumerate().map(|(i, e)| named(&format!("e{i}"), e)).collect()
}

#[test]
fn counts_files_and_bytes_without_following_links() {
    let world = dir(entries(vec![
        file(10),
        FsEntry::Link,
        dir(entries(vec![file(5), file(7), dir(vec![])])),
        dir(entries(vec![FsEntry::Link, file(1)])),
    ]));
    assert_eq!(count_files(&world), Some(4));
    assert_eq!(total_bytes(&world), Some(23));
}

#[test]
fn single_entries() {
    assert_eq!(count_files(&FsEntry::Link), Some(0));
    assert_eq!(total_bytes(&FsEntry::Link), Some(0));
    assert_eq!(count_files(&file(99)), Some(1));
    assert_eq!(total_bytes(&file(99)), Some(99));
    assert_eq!(count_files(&dir(vec![])), Some(0));
}

#[test]
fn byte_overflow_is_reported() {
    assert_eq!(total_bytes(&dir(entries(vec![file(u64::MAX), file(1)]))), None);
    assert_eq!(total_bytes(&dir(entries(vec![file(u64::MAX), file(0)]))), Some(u64::MAX));
}

fn describe(ops: &[ZipOp]) -> Vec<String> {
    ops.iter()
        .map(|op| match op {
            ZipOp::AddDirectory { name } => format!("dir {name}"),
            ZipOp::WriteFile { name, progress } => format!(
                "file {name} {}/{} {} {:?}",
                progress.current, progress.total, progress.label, progress.updated_at
            ),
        })
        .collect()
}

#[test]
fn archive_plan_walks_worlds_in_order() {
    let first = vec![
        named("level.dat", file(3)),
        named("link", FsEntry::Link),
        named("region", dir(vec![named("r.0.0.mca", file(9)), named("empty", dir(vec![]))])),
    ];
    let second = vec![named("sub\\x.txt", file(1))];
    let ops = plan_archive(&vec!["Mundo A".to_string(), "B".to_string()], &vec![first, second], 3);
    assert_eq!(
        describe(&ops),
        vec![
            "file Mundo A/level.dat 1/3 Compactando Mundo A / level.dat None".to_string(),
            "dir Mundo A/region/".to_string(),
            "file Mundo A/region/r.0.0.mca 2/3 Compactando Mundo A / r.0.0.mca None".to_string(),
            "dir Mundo A/region/empty/".to_string(),
            "file B/sub/x.txt 3/3 Compactando B / x.txt None".to_string(),
        ]
    );
}

#[test]
fn archive_plan_of_empty_worlds() {
    let ops = plan_archive(&vec!["w".to_string()], &vec![vec![named("d", dir(vec![]))]], 1);
    assert_eq!(describe(&ops), vec!["dir w/d/".to_string()]);
    assert!(plan_archive(&vec![], &vec![], 1).is_empty());
}
