//! What a backup finds in a world folder, without following links: its
//! files and their bytes, and the entries it writes to the archive, in
//! the order of the walk, with the progress shown after each file.
use vstd::prelude::*;
use crate::backup::{BackupProgress, sum_counts};
use crate::progress::{archive_directory_entry, archive_entry_name, normalize_separators,
    progress_label, progress_label_spec};
use crate::text::push_char;

verus! {

/// What a folder walk finds at a path, without following links.
pub enum FsEntry {
    /// A symbolic link or reparse point, which a backup does not follow.
    Link,
    /// A regular file and its size in bytes.
    File { size: u64 },
    /// A folder and what it holds, in the order the folder lists it.
    Dir { children: Vec<NamedEntry> },
}

/// An entry of a folder: its name and what lies there.
pub struct NamedEntry {
    /// The name of the entry within its folder.
    pub name: String,
    /// What lies there.
    pub entry: FsEntry,
}

/// The number of files under an entry, links not followed.
pub open spec fn entry_files(e: FsEntry) -> nat
    decreases e, 0nat,
{
    match e {
        FsEntry::Link => 0,
        FsEntry::File { .. } => 1,
        FsEntry::Dir { children } => files_in(children@, children@.len() as nat),
    }
}

/// The number of files under the first `n` entries of `s`.
pub open spec fn files_in(s: Seq<NamedEntry>, n: nat) -> nat
    decreases s, n,
{
    if n == 0 || n > s.len() {
        0
    } else {
        files_in(s, (n - 1) as nat) + entry_files(s[n - 1].entry)
    }
}

/// The number of bytes in the files under an entry, links not followed.
pub open spec fn entry_bytes(e: FsEntry) -> nat
    decreases e, 0nat,
{
    match e {
        FsEntry::Link => 0,
        FsEntry::File { size } => size as nat,
        FsEntry::Dir { children } => bytes_in(children@, children@.len() as nat),
    }
}

/// The number of bytes under the first `n` entries of `s`.
pub open spec fn bytes_in(s: Seq<NamedEntry>, n: nat) -> nat
    decreases s, n,
{
    if n == 0 || n > s.len() {
        0
    } else {
        bytes_in(s, (n - 1) as nat) + entry_bytes(s[n - 1].entry)
    }
}

proof fn lemma_files_in_grows(s: Seq<NamedEntry>, i: nat, j: nat)
    requires
        i <= j <= s.len(),
    ensures
        files_in(s, i) <= files_in(s, j),
    decreases j - i,
{
    if i < j {
        lemma_files_in_grows(s, i, (j - 1) as nat);
    }
}

proof fn lemma_bytes_in_grows(s: Seq<NamedEntry>, i: nat, j: nat)
    requires
        i <= j <= s.len(),
    ensures
        bytes_in(s, i) <= bytes_in(s, j),
    decreases j - i,
{
    if i < j {
        lemma_bytes_in_grows(s, i, (j - 1) as nat);
    }
}

/// The number of files under an entry (a file counts itself, a link
/// nothing, a folder what it holds), or none when it exceeds `u64::MAX`.
pub fn count_files(e: &FsEntry) -> (res: Option<u64>)
    ensures
        entry_files(*e) <= u64::MAX ==> res == Some(entry_files(*e) as u64),
        entry_files(*e) > u64::MAX ==> res is None,
    decreases e,
{
    match e {
        FsEntry::Link => Some(0),
        FsEntry::File { .. } => Some(1),
        FsEntry::Dir { children } => {
            let ghost s = children@;
            let mut total: u64 = 0;
            let mut i: usize = 0;
            while i < children.len()
                invariant
                    s == children@,
                    *e == (FsEntry::Dir { children: *children }),
                    i <= s.len(),
                    total == files_in(s, i as nat),
                decreases s.len() - i,
            {
                assert(decreases_to!(*e => (*e)->children));
                assert((*e)->children == *children);
                assert(decreases_to!(*children => children@));
                assert(decreases_to!(s => s[i as int]));
                assert(decreases_to!(s[i as int] => s[i as int].entry));
                assert(decreases_to!(*e => s[i as int].entry));
                let part = count_files(&children[i].entry);
                proof {
                    lemma_files_in_grows(s, (i + 1) as nat, s.len());
                }
                match part {
                    None => {
                        return None;
                    },
                    Some(n) => match total.checked_add(n) {
                        None => {
                            return None;
                        },
                        Some(t) => {
                            total = t;
                        },
                    },
                }
                i = i + 1;
            }
            Some(total)
        },
    }
}

/// The number of bytes in the files under an entry, or none when it
/// exceeds `u64::MAX`.
pub fn total_bytes(e: &FsEntry) -> (res: Option<u64>)
    ensures
        entry_bytes(*e) <= u64::MAX ==> res == Some(entry_bytes(*e) as u64),
        entry_bytes(*e) > u64::MAX ==> res is None,
    decreases e,
{
    match e {
        FsEntry::Link => Some(0),
        FsEntry::File { size } => Some(*size),
        FsEntry::Dir { children } => {
            let ghost s = children@;
            let mut total: u64 = 0;
            let mut i: usize = 0;
            while i < children.len()
                invariant
                    s == children@,
                    *e == (FsEntry::Dir { children: *children }),
                    i <= s.len(),
                    total == bytes_in(s, i as nat),
                decreases s.len() - i,
            {
                assert(decreases_to!(*e => (*e)->children));
                assert((*e)->children == *children);
                assert(decreases_to!(*children => children@));
                assert(decreases_to!(s => s[i as int]));
                assert(decreases_to!(s[i as int] => s[i as int].entry));
                assert(decreases_to!(*e => s[i as int].entry));
                let part = total_bytes(&children[i].entry);
                proof {
                    lemma_bytes_in_grows(s, (i + 1) as nat, s.len());
                }
                match part {
                    None => {
                        return None;
                    },
                    Some(n) => match total.checked_add(n) {
                        None => {
                            return None;
                        },
                        Some(t) => {
                            total = t;
                        },
                    },
                }
                i = i + 1;
            }
            Some(total)
        },
    }
}


/// One entry written to the archive, in the order the walk meets it.
pub enum ZipOp {
    /// A folder entry, named with a trailing `/`.
    AddDirectory { name: String },
    /// The next file of the walk, written under `name`; the panel then
    /// shows `progress`.
    WriteFile { name: String, progress: BackupProgress },
}

/// An archive entry as far as the walk decides it: a folder and its name,
/// or a file, its name and the number it gets among the files written.
pub enum ZipStep {
    Directory { name: Seq<char> },
    File { name: Seq<char>, current: nat },
}

/// What an operation decides.
pub open spec fn step_of(op: ZipOp) -> ZipStep {
    match op {
        ZipOp::AddDirectory { name } => ZipStep::Directory { name: name@ },
        ZipOp::WriteFile { name, progress } => ZipStep::File {
            name: name@,
            current: progress.current as nat,
        },
    }
}

/// What a list of operations decides, in order.
pub open spec fn steps_of(ops: Seq<ZipOp>) -> Seq<ZipStep> {
    ops.map_values(|op: ZipOp| step_of(op))
}

/// Every file written shows `total` steps, with the label of its name.
pub open spec fn labelled(ops: Seq<ZipOp>, total: u64) -> bool {
    forall|i: int|
        0 <= i < ops.len() ==> (#[trigger] ops[i] matches ZipOp::WriteFile { name, progress } ==> (
        progress.total == total && progress.label@ == progress_label_spec(name@)
            && progress.updated_at is None))
}

/// The archive name of the entry `name` of the folder archived as `rel`:
/// its path below the `saves` folder, with slashes.
pub open spec fn entry_path(rel: Seq<char>, name: Seq<char>) -> Seq<char> {
    rel + seq!['/'] + normalize_separators(name)
}

/// The entries written for what lies at archive path `path`, after
/// `written` files: nothing for a link, the file numbered `written + 1`,
/// or the folder entry followed by what the folder holds.
pub open spec fn entry_steps(path: Seq<char>, e: FsEntry, written: nat) -> Seq<ZipStep>
    decreases e, 0nat,
{
    match e {
        FsEntry::Link => seq![],
        FsEntry::File { .. } => seq![ZipStep::File { name: path, current: written + 1 }],
        FsEntry::Dir { children } => seq![ZipStep::Directory { name: path + seq!['/'] }]
            + folder_steps(path, children@, children@.len() as nat, written),
    }
}

/// The entries written for the first `n` entries of `s`, held by the
/// folder archived as `rel`, after `written` files.
pub open spec fn folder_steps(rel: Seq<char>, s: Seq<NamedEntry>, n: nat, written: nat) -> Seq<
    ZipStep,
>
    decreases s, n,
{
    if n == 0 || n > s.len() {
        seq![]
    } else {
        folder_steps(rel, s, (n - 1) as nat, written) + entry_steps(
            entry_path(rel, s[n - 1].name@),
            s[n - 1].entry,
            written + files_in(s, (n - 1) as nat),
        )
    }
}

/// The number of files in the first `k` world folders.
pub open spec fn files_before(contents: Seq<Vec<NamedEntry>>, k: nat) -> nat
    decreases k,
{
    if k == 0 || k > contents.len() {
        0
    } else {
        files_before(contents, (k - 1) as nat) + files_in(
            contents[k - 1]@,
            contents[k - 1]@.len() as nat,
        )
    }
}

/// The entries written for the first `k` worlds, `worlds[j]` holding
/// `contents[j]`: each world's folder in turn, its files numbered on from
/// those of the worlds before it.
pub open spec fn archive_steps(worlds: Seq<String>, contents: Seq<Vec<NamedEntry>>, k: nat) -> Seq<
    ZipStep,
>
    decreases k,
{
    if k == 0 || k > contents.len() {
        seq![]
    } else {
        archive_steps(worlds, contents, (k - 1) as nat) + folder_steps(
            normalize_separators(worlds[k - 1]@),
            contents[k - 1]@,
            contents[k - 1]@.len() as nat,
            files_before(contents, (k - 1) as nat),
        )
    }
}

/// The numbers of the files among the entries, in order.
pub open spec fn file_currents(steps: Seq<ZipStep>) -> Seq<nat>
    decreases steps.len(),
{
    if steps.len() == 0 {
        seq![]
    } else {
        let r = file_currents(steps.drop_last());
        match steps.last() {
            ZipStep::File { current, .. } => r.push(current),
            ZipStep::Directory { .. } => r,
        }
    }
}

/// `written + 1`, `written + 2`, ..., `written + k`.
pub open spec fn numbered_from(written: nat, k: nat) -> Seq<nat> {
    Seq::new(k, |i: int| (written + i + 1) as nat)
}

proof fn lemma_files_before_grows(contents: Seq<Vec<NamedEntry>>, i: nat, j: nat)
    requires
        i <= j <= contents.len(),
    ensures
        files_before(contents, i) <= files_before(contents, j),
    decreases j - i,
{
    if i < j {
        lemma_files_before_grows(contents, i, (j - 1) as nat);
    }
}

/// Appends the entries written for what the folder archived as `rel`
/// holds, after `written` files, and returns the number of files written
/// then.
fn plan_folder(
    rel: &String,
    children: &Vec<NamedEntry>,
    written: u64,
    total: u64,
    ops: &mut Vec<ZipOp>,
) -> (res: u64)
    requires
        written + files_in(children@, children@.len() as nat) <= u64::MAX,
        labelled(old(ops)@, total),
    ensures
        res == written + files_in(children@, children@.len() as nat),
        steps_of(final(ops)@) == steps_of(old(ops)@) + folder_steps(
            rel@,
            children@,
            children@.len() as nat,
            written as nat,
        ),
        labelled(final(ops)@, total),
    decreases children,
{
    let ghost s = children@;
    let ghost start = ops@;
    let mut w: u64 = written;
    let mut i: usize = 0;
    assert(steps_of(ops@) =~= steps_of(start) + folder_steps(rel@, s, 0, written as nat));
    while i < children.len()
        invariant
            s == children@,
            i <= s.len(),
            w == written + files_in(s, i as nat),
            written + files_in(s, s.len() as nat) <= u64::MAX,
            steps_of(ops@) == steps_of(start) + folder_steps(rel@, s, i as nat, written as nat),
            labelled(ops@, total),
        decreases s.len() - i,
    {
        proof {
            lemma_files_in_grows(s, (i + 1) as nat, s.len());
        }
        let child = &children[i];
        let mut path = rel.clone();
        push_char(&mut path, '/');
        let part = archive_entry_name(child.name.as_str());
        path.append(part.as_str());
        let ghost before = ops@;
        let ghost path_view = path@;
        assert(path_view == entry_path(rel@, s[i as int].name@));
        assert(child.entry == s[i as int].entry);
        assert(files_in(s, (i + 1) as nat) == files_in(s, i as nat) + entry_files(s[i as int].entry));
        match &child.entry {
            FsEntry::Link => {
                assert(entry_steps(path_view, s[i as int].entry, w as nat) =~= seq![]);
            },
            FsEntry::File { .. } => {
                let label = progress_label(path.as_str());
                let op = ZipOp::WriteFile {
                    name: path,
                    progress: BackupProgress { current: w + 1, total, label, updated_at: None },
                };
                ops.push(op);
                w = w + 1;
                assert(steps_of(ops@) =~= steps_of(before).push(step_of(op)));
                assert(labelled(ops@, total)) by {
                    assert forall|k: int| 0 <= k < ops@.len() implies (#[trigger] ops@[k] matches ZipOp::WriteFile {
                        name,
                        progress,
                    } ==> (progress.total == total && progress.label@ == progress_label_spec(name@)
                        && progress.updated_at is None)) by {
                        if k < before.len() {
                            assert(ops@[k] == before[k]);
                        }
                    }
                }
            },
            FsEntry::Dir { children: grand } => {
                let dir_entry = archive_directory_entry(path.as_str());
                assert(path@.len() > 0) by {
                    assert(path@[rel@.len() as int] == '/');
                }
                match dir_entry {
                    Some(d) => {
                        let op = ZipOp::AddDirectory { name: d };
                        ops.push(op);
                        assert(steps_of(ops@) =~= steps_of(before).push(step_of(op)));
                        assert(labelled(ops@, total)) by {
                            assert forall|k: int| 0 <= k < ops@.len() implies (#[trigger] ops@[k] matches ZipOp::WriteFile {
                                name,
                                progress,
                            } ==> (progress.total == total && progress.label@
                                == progress_label_spec(name@) && progress.updated_at is None)) by {
                                if k < before.len() {
                                    assert(ops@[k] == before[k]);
                                }
                            }
                        }
                    },
                    None => {},
                }
                assert(entry_files(s[i as int].entry) == files_in(grand@, grand@.len() as nat));
                assert(decreases_to!(*children => children@));
                assert(decreases_to!(children@ => children@[i as int]));
                assert(decreases_to!(children@[i as int] => children@[i as int].entry));
                assert(decreases_to!(children@[i as int].entry => (children@[i as int].entry)->children));
                assert((children@[i as int].entry)->children == *grand);
                w = plan_folder(&path, grand, w, total, ops);
                assert(steps_of(ops@) =~= steps_of(before) + entry_steps(
                    path_view,
                    s[i as int].entry,
                    (written + files_in(s, i as nat)) as nat,
                ));
            },
        }
        assert(folder_steps(rel@, s, (i + 1) as nat, written as nat) == folder_steps(
            rel@,
            s,
            i as nat,
            written as nat,
        ) + entry_steps(path_view, s[i as int].entry, (written + files_in(s, i as nat)) as nat));
        assert(steps_of(ops@) =~= steps_of(start) + folder_steps(
            rel@,
            s,
            (i + 1) as nat,
            written as nat,
        ));
        i = i + 1;
    }
    w
}

/// The entries to write to the archive, in order, for the worlds
/// `worlds[j]`, whose folders hold `contents[j]`: each world's folder in
/// turn, the files numbered from 1 across all worlds, each shown out of
/// `total` steps with the label of its name.
pub fn plan_archive(worlds: &Vec<String>, contents: &Vec<Vec<NamedEntry>>, total: u64) -> (res:
    Vec<ZipOp>)
    requires
        worlds@.len() == contents@.len(),
        files_before(contents@, contents@.len() as nat) <= u64::MAX,
    ensures
        steps_of(res@) == archive_steps(worlds@, contents@, contents@.len() as nat),
        labelled(res@, total),
{
    let mut ops: Vec<ZipOp> = Vec::new();
    let mut written: u64 = 0;
    let mut j: usize = 0;
    assert(steps_of(ops@) =~= archive_steps(worlds@, contents@, 0));
    while j < contents.len()
        invariant
            worlds@.len() == contents@.len(),
            j <= contents@.len(),
            written == files_before(contents@, j as nat),
            files_before(contents@, contents@.len() as nat) <= u64::MAX,
            steps_of(ops@) == archive_steps(worlds@, contents@, j as nat),
            labelled(ops@, total),
        decreases contents.len() - j,
    {
        proof {
            lemma_files_before_grows(contents@, (j + 1) as nat, contents@.len() as nat);
        }
        let rel = archive_entry_name(worlds[j].as_str());
        written = plan_folder(&rel, &contents[j], written, total, &mut ops);
        j = j + 1;
    }
    ops
}

proof fn lemma_file_currents_append(a: Seq<ZipStep>, b: Seq<ZipStep>)
    ensures
        file_currents(a + b) == file_currents(a) + file_currents(b),
    decreases b.len(),
{
    if b.len() == 0 {
        assert(a + b =~= a);
        assert(file_currents(a) + file_currents(b) =~= file_currents(a));
    } else {
        lemma_file_currents_append(a, b.drop_last());
        assert((a + b).drop_last() =~= a + b.drop_last());
        assert((a + b).last() == b.last());
        match b.last() {
            ZipStep::File { current, .. } => {
                assert(file_currents(a) + file_currents(b) =~= (file_currents(a) + file_currents(
                    b.drop_last(),
                )).push(current));
            },
            ZipStep::Directory { .. } => {},
        }
    }
}

proof fn lemma_numbered_from_split(written: nat, a: nat, b: nat)
    ensures
        numbered_from(written, a) + numbered_from(written + a, b) == numbered_from(written, a + b),
{
    assert(numbered_from(written, a) + numbered_from(written + a, b) =~= numbered_from(
        written,
        a + b,
    ));
}

proof fn lemma_entry_numbers(path: Seq<char>, e: FsEntry, written: nat)
    ensures
        file_currents(entry_steps(path, e, written)) == numbered_from(written, entry_files(e)),
    decreases e, 0nat,
{
    match e {
        FsEntry::Link => {
            let none = Seq::<ZipStep>::empty();
            assert(entry_steps(path, e, written) == none);
            assert(file_currents(none) == Seq::<nat>::empty());
            assert(entry_files(e) == 0);
            assert(numbered_from(written, 0) =~= Seq::<nat>::empty());
        },
        FsEntry::File { .. } => {
            let one = seq![ZipStep::File { name: path, current: written + 1 }];
            assert(one.drop_last() =~= Seq::<ZipStep>::empty());
            assert(entry_steps(path, e, written) == one);
            assert(file_currents(one.drop_last()) == Seq::<nat>::empty());
            assert(file_currents(one) =~= seq![written + 1]);
            assert(entry_files(e) == 1);
            assert(numbered_from(written, 1) =~= seq![written + 1]);
        },
        FsEntry::Dir { children } => {
            let head = seq![ZipStep::Directory { name: path + seq!['/'] }];
            let rest = folder_steps(path, children@, children@.len() as nat, written);
            lemma_file_currents_append(head, rest);
            assert(head.drop_last() =~= Seq::<ZipStep>::empty());
            assert(decreases_to!(e => e->children));
            lemma_folder_numbers(path, children@, children@.len() as nat, written);
            assert(file_currents(head.drop_last()) == Seq::<nat>::empty());
            assert(file_currents(head) == Seq::<nat>::empty());
            assert(file_currents(head) + file_currents(rest) =~= file_currents(rest));
            assert(entry_steps(path, e, written) == head + rest);
            assert(entry_files(e) == files_in(children@, children@.len() as nat));
        },
    }
}

proof fn lemma_folder_numbers(rel: Seq<char>, s: Seq<NamedEntry>, n: nat, written: nat)
    ensures
        file_currents(folder_steps(rel, s, n, written)) == numbered_from(written, files_in(s, n)),
    decreases s, n,
{
    if n == 0 || n > s.len() {
        assert(numbered_from(written, 0) =~= seq![]);
    } else {
        let a = folder_steps(rel, s, (n - 1) as nat, written);
        let w = written + files_in(s, (n - 1) as nat);
        let b = entry_steps(entry_path(rel, s[n - 1].name@), s[n - 1].entry, w);
        lemma_folder_numbers(rel, s, (n - 1) as nat, written);
        assert(decreases_to!(s => s[n - 1]));
        assert(decreases_to!(s[n - 1] => s[n - 1].entry));
        lemma_entry_numbers(entry_path(rel, s[n - 1].name@), s[n - 1].entry, w);
        lemma_file_currents_append(a, b);
        lemma_numbered_from_split(
            written,
            files_in(s, (n - 1) as nat),
            entry_files(s[n - 1].entry),
        );
    }
}

proof fn lemma_archive_numbers(worlds: Seq<String>, contents: Seq<Vec<NamedEntry>>, k: nat)
    ensures
        file_currents(archive_steps(worlds, contents, k)) == numbered_from(
            0,
            files_before(contents, k),
        ),
    decreases k,
{
    if k == 0 || k > contents.len() {
        assert(numbered_from(0, 0) =~= seq![]);
    } else {
        let j = (k - 1) as nat;
        lemma_archive_numbers(worlds, contents, j);
        let c = contents[k - 1]@;
        lemma_folder_numbers(
            normalize_separators(worlds[k - 1]@),
            c,
            c.len() as nat,
            files_before(contents, j),
        );
        lemma_file_currents_append(
            archive_steps(worlds, contents, j),
            folder_steps(
                normalize_separators(worlds[k - 1]@),
                c,
                c.len() as nat,
                files_before(contents, j),
            ),
        );
        lemma_numbered_from_split(0, files_before(contents, j), files_in(c, c.len() as nat));
    }
}

proof fn lemma_files_before_sum(contents: Seq<Vec<NamedEntry>>, counts: Seq<u64>, k: nat)
    requires
        k <= contents.len() == counts.len(),
        forall|j: int|
            0 <= j < counts.len() ==> #[trigger] counts[j] == files_in(
                contents[j]@,
                contents[j]@.len() as nat,
            ),
    ensures
        files_before(contents, k) == sum_counts(counts.take(k as int)),
    decreases k,
{
    if k > 0 {
        lemma_files_before_sum(contents, counts, (k - 1) as nat);
        assert(counts.take(k as int).drop_last() =~= counts.take(k - 1));
        assert(counts[k - 1] == files_in(contents[k - 1]@, contents[k - 1]@.len() as nat));
    }
}

/// Archiving the worlds writes every file that was counted, once: when
/// `counts[j]` is the number of files in the folder of world `j`, the files
/// written are numbered 1, 2, ..., up to the sum of the counts, so each
/// number is at most the total shown (that sum, or 1 when it is 0), and
/// the last file written is numbered with that sum.
pub proof fn law_archive_numbers_every_counted_file(
    worlds: Seq<String>,
    contents: Seq<Vec<NamedEntry>>,
    counts: Seq<u64>,
)
    requires
        worlds.len() == contents.len() == counts.len(),
        forall|j: int|
            0 <= j < counts.len() ==> #[trigger] counts[j] == files_in(
                contents[j]@,
                contents[j]@.len() as nat,
            ),
    ensures
        file_currents(archive_steps(worlds, contents, contents.len() as nat)) == numbered_from(
            0,
            sum_counts(counts),
        ),
        forall|k: int|
            0 <= k < file_currents(archive_steps(worlds, contents, contents.len() as nat)).len()
                ==> 1 <= #[trigger] file_currents(
                archive_steps(worlds, contents, contents.len() as nat),
            )[k] <= if sum_counts(counts) == 0 {
                1
            } else {
                sum_counts(counts)
            },
        sum_counts(counts) > 0 ==> file_currents(
            archive_steps(worlds, contents, contents.len() as nat),
        ).last() == sum_counts(counts),
{
    lemma_archive_numbers(worlds, contents, contents.len() as nat);
    lemma_files_before_sum(contents, counts, contents.len() as nat);
    assert(counts.take(counts.len() as int) =~= counts);
}

} // verus!
