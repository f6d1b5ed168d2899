//! Typed filesystem operations, their human-readable summaries, and the
//! planning of overlay copies and backups. Planning never touches the
//! filesystem; the operations are executed elsewhere.
use vstd::prelude::*;

use crate::domain::{has_segment, split_on_slash};
use crate::error::WkError;
use crate::manifest::{same_identity, EntryKind, Manifest, ManifestEntry, PathSnapshot};
use crate::pathops::{join_path, joined, looks_rooted, path_is_absolute};
use crate::text::{cat, cat3, cat4, decimal_string, decimal_text, octal_string, octal_text, opt_view};

verus! {

/// One filesystem operation of a plan.
#[derive(Debug)]
pub enum FsOp {
    CreateDir { path: String },
    CopyFile { source: String, dest: String },
    CopySymlink { target: String, dest: String, warning: Option<String> },
    RemoveFile { path: String },
    RemoveEmptyDir { path: String },
    BackupPath { path: String, backup: String },
    WriteFileAtomic { path: String, contents: Vec<u8> },
    SetPermissions { path: String, mode: u32 },
}

/// An operation with its strings taken by content, without the parts that
/// depend on the clock (backup names) or on the platform (symlink warnings).
pub enum OpShape {
    CreateDir(Seq<char>),
    CopyFile(Seq<char>, Seq<char>),
    CopySymlink(Seq<char>, Seq<char>),
    RemoveFile(Seq<char>),
    RemoveEmptyDir(Seq<char>),
    Backup(Seq<char>),
    WriteFile(Seq<char>, Seq<u8>),
    SetPermissions(Seq<char>, u32),
}

pub open spec fn shape(op: FsOp) -> OpShape {
    match op {
        FsOp::CreateDir { path } => OpShape::CreateDir(path@),
        FsOp::CopyFile { source, dest } => OpShape::CopyFile(source@, dest@),
        FsOp::CopySymlink { target, dest, .. } => OpShape::CopySymlink(target@, dest@),
        FsOp::RemoveFile { path } => OpShape::RemoveFile(path@),
        FsOp::RemoveEmptyDir { path } => OpShape::RemoveEmptyDir(path@),
        FsOp::BackupPath { path, .. } => OpShape::Backup(path@),
        FsOp::WriteFileAtomic { path, contents } => OpShape::WriteFile(path@, contents@),
        FsOp::SetPermissions { path, mode } => OpShape::SetPermissions(path@, mode),
    }
}

pub open spec fn shapes(ops: Seq<FsOp>) -> Seq<OpShape> {
    ops.map_values(|op: FsOp| shape(op))
}


pub open spec fn is_ascii_alnum(c: char) -> bool {
    ('0' <= c && c <= '9') || ('a' <= c && c <= 'z') || ('A' <= c && c <= 'Z')
}

pub open spec fn sanitize_char(c: char) -> char {
    if is_ascii_alnum(c) {
        c
    } else {
        '_'
    }
}

/// A path as a flat name: ASCII letters and digits kept, everything else
/// `_`; the empty path becomes `root`.
pub open spec fn sanitized(s: Seq<char>) -> Seq<char> {
    if s.len() == 0 {
        "root"@
    } else {
        s.map_values(|c: char| sanitize_char(c))
    }
}

pub fn sanitize_path(path: &str) -> (s: String)
    ensures
        s@ == sanitized(path@),
{
    let n = path.unicode_len();
    if n == 0 {
        return String::from_str("root");
    }
    let mut out = String::from_str("");
    proof {
        reveal_strlit("");
    }
    let mut i: usize = 0;
    while i < n
        invariant
            n == path@.len(),
            i <= n,
            out@ == path@.take(i as int).map_values(|c: char| sanitize_char(c)),
        decreases n - i,
    {
        let c = path.get_char(i);
        proof {
            reveal_strlit("_");
        }
        if ('0' <= c && c <= '9') || ('a' <= c && c <= 'z') || ('A' <= c && c <= 'Z') {
            out.append(path.substring_char(i, i + 1));
        } else {
            out.append("_");
        }
        proof {
            assert(path@.take(i as int + 1) =~= path@.take(i as int).push(c));
            assert(path@.take(i as int + 1).map_values(|c: char| sanitize_char(c)) =~= path@.take(
                i as int,
            ).map_values(|c: char| sanitize_char(c)).push(sanitize_char(c)));
            assert(path@.subrange(i as int, i as int + 1) =~= seq![c]);
        }
        i = i + 1;
    }
    assert(path@.take(n as int) =~= path@);
    out
}

/// Nanoseconds in a duration given as whole seconds and the nanoseconds
/// beyond them.
pub fn duration_nanos(secs: u64, subsec_nanos: u32) -> (n: u128)
    ensures
        n == secs * 1_000_000_000 + subsec_nanos,
{
    (secs as u128) * 1_000_000_000u128 + (subsec_nanos as u128)
}

#[verifier::external_type_specification]
#[verifier::external_body]
pub struct ExSystemTime(std::time::SystemTime);

/// Calls `std::time::SystemTime::now`. Nothing is claimed of the result.
#[verifier::external_body]
fn system_now() -> std::time::SystemTime {
    std::time::SystemTime::now()
}

/// Calls `SystemTime::duration_since(UNIX_EPOCH)`: the time elapsed since the
/// epoch, or `None` for a time before it. Nothing is claimed of the value.
#[verifier::external_body]
fn since_unix_epoch(t: &std::time::SystemTime) -> Option<std::time::Duration> {
    t.duration_since(std::time::UNIX_EPOCH).ok()
}

/// Calls `Duration::as_secs`; nothing is claimed of the value.
#[verifier::external_body]
fn duration_secs(d: &std::time::Duration) -> u64 {
    d.as_secs()
}

/// Calls `Duration::subsec_nanos`, which is documented to be below one
/// billion.
#[verifier::external_body]
fn duration_subsec_nanos(d: &std::time::Duration) -> (n: u32)
    ensures
        n < 1_000_000_000,
{
    d.subsec_nanos()
}

/// A backup name for `path` under `root`: a timestamp, a dash and the
/// sanitized path.
pub open spec fn backup_name_ok(backup: Seq<char>, path: Seq<char>, root: Seq<char>) -> bool {
    exists|t: u128| backup == joined(root, #[trigger] decimal_text(t as nat) + "-"@ + sanitized(path))
}

/// `<backup root>/<nanoseconds since the epoch>-<sanitized path>`; a clock
/// before the epoch counts as zero.
pub fn backup_path(path: &str, backup_root: &str) -> (b: String)
    ensures
        backup_name_ok(b@, path@, backup_root@),
{
    let now = system_now();
    let timestamp = match since_unix_epoch(&now) {
        Some(d) => duration_nanos(duration_secs(&d), duration_subsec_nanos(&d)),
        None => 0,
    };
    let name = cat3(decimal_string(timestamp).as_str(), "-", sanitize_path(path).as_str());
    let b = join_path(backup_root, name.as_str());
    assert(b@ == joined(backup_root@, decimal_text(timestamp as nat) + "-"@ + sanitized(path@)));
    b
}

/// An operation that moves `path` into the backup area.
pub fn backup_path_op(path: &str, backup_root: &str) -> (op: FsOp)
    ensures
        shape(op) == OpShape::Backup(path@),
        details_ok(op, backup_root@),
{
    FsOp::BackupPath { path: path.to_owned(), backup: backup_path(path, backup_root) }
}

pub open spec fn has_parent_segment(t: Seq<char>) -> bool {
    split_on_slash(t).contains(".."@)
}

pub open spec fn outside_warning(t: Seq<char>) -> Seq<char> {
    "symlink target may point outside managed path: "@ + t
}

/// A symlink warning for `t`: present for a target with a `..` segment,
/// absent for a target that neither has one nor looks rooted; in between the
/// platform's notion of absolute decides.
pub open spec fn warning_ok(t: Seq<char>, w: Option<String>) -> bool {
    &&& (w is Some ==> opt_view(w) == Some(outside_warning(t)))
    &&& (has_parent_segment(t) ==> w is Some)
    &&& (w is Some ==> has_parent_segment(t) || looks_rooted(t))
}

/// The parts of an operation that `shape` leaves out are well formed.
pub open spec fn details_ok(op: FsOp, backup_root: Seq<char>) -> bool {
    match op {
        FsOp::CopySymlink { target, warning, .. } => warning_ok(target@, warning),
        FsOp::BackupPath { path, backup } => backup_name_ok(backup@, path@, backup_root),
        _ => true,
    }
}

pub open spec fn all_details_ok(ops: Seq<FsOp>, backup_root: Seq<char>) -> bool {
    forall|i: int| 0 <= i < ops.len() ==> details_ok(#[trigger] ops[i], backup_root)
}

/// Whether some `/`-separated segment of `t` is `..`.
fn has_parent_segment_exec(t: &str) -> (found: bool)
    ensures
        found <==> has_parent_segment(t@),
{
    proof {
        reveal_strlit("..");
    }
    has_segment(t, "..")
}

/// Warns when a symlink target may point outside the managed path: it is
/// absolute or goes through a `..` segment.
pub fn symlink_warning(target: &str) -> (w: Option<String>)
    ensures
        warning_ok(target@, w),
{
    if path_is_absolute(target) || has_parent_segment_exec(target) {
        return Some(cat("symlink target may point outside managed path: ", target));
    }
    None
}

/// The text printed for an operation.
pub open spec fn summary_of(op: FsOp) -> Seq<char> {
    match op {
        FsOp::CreateDir { path } => "create dir "@ + path@,
        FsOp::CopyFile { source, dest } => "copy file "@ + source@ + " -> "@ + dest@,
        FsOp::CopySymlink { target, dest, .. } => "copy symlink "@ + dest@ + " -> "@ + target@,
        FsOp::RemoveFile { path } => "remove file "@ + path@,
        FsOp::RemoveEmptyDir { path } => "remove empty dir "@ + path@,
        FsOp::BackupPath { path, backup } => "backup "@ + path@ + " -> "@ + backup@,
        FsOp::WriteFileAtomic { path, .. } => "write file "@ + path@,
        FsOp::SetPermissions { path, mode } => "chmod "@ + octal_text(mode as nat) + " "@ + path@,
    }
}

pub fn operation_summary(op: &FsOp) -> (s: String)
    ensures
        s@ == summary_of(*op),
{
    match op {
        FsOp::CreateDir { path } => cat("create dir ", path.as_str()),
        FsOp::CopyFile { source, dest } => cat4("copy file ", source.as_str(), " -> ", dest.as_str()),
        FsOp::CopySymlink { target, dest, .. } => cat4(
            "copy symlink ",
            dest.as_str(),
            " -> ",
            target.as_str(),
        ),
        FsOp::RemoveFile { path } => cat("remove file ", path.as_str()),
        FsOp::RemoveEmptyDir { path } => cat("remove empty dir ", path.as_str()),
        FsOp::BackupPath { path, backup } => cat4("backup ", path.as_str(), " -> ", backup.as_str()),
        FsOp::WriteFileAtomic { path, .. } => cat("write file ", path.as_str()),
        FsOp::SetPermissions { path, mode } => cat4("chmod ", octal_string(*mode).as_str(), " ", path.as_str()),
    }
}

/// What executing (or previewing) a plan reports.
#[derive(Debug)]
pub struct ExecutionReport {
    pub operations: Vec<String>,
    pub warnings: Vec<String>,
    pub dry_run: bool,
}

/// The warnings carried by the symlink copies of a plan, in order.
pub open spec fn plan_warnings(ops: Seq<FsOp>) -> Seq<Seq<char>>
    decreases ops.len(),
{
    if ops.len() == 0 {
        Seq::empty()
    } else {
        let prev = plan_warnings(ops.drop_last());
        match ops.last() {
            FsOp::CopySymlink { warning: Some(w), .. } => prev.push(w@),
            _ => prev,
        }
    }
}

/// The report of a plan: one summary line per operation and every symlink
/// warning, in order. Whether the operations are then carried out is up to
/// the caller; `dry_run` records that they are not.
pub fn summarize_plan(ops: &Vec<FsOp>, dry_run: bool) -> (r: ExecutionReport)
    ensures
        r.operations@.len() == ops@.len(),
        forall|i: int| 0 <= i < ops@.len() ==> #[trigger] r.operations@[i]@ == summary_of(ops@[i]),
        r.warnings@.map_values(|w: String| w@) == plan_warnings(ops@),
        r.dry_run == dry_run,
{
    let mut operations: Vec<String> = Vec::new();
    let mut warnings: Vec<String> = Vec::new();
    let mut i: usize = 0;
    while i < ops.len()
        invariant
            i <= ops@.len(),
            operations@.len() == i,
            forall|j: int| 0 <= j < i ==> #[trigger] operations@[j]@ == summary_of(ops@[j]),
            warnings@.map_values(|w: String| w@) == plan_warnings(ops@.take(i as int)),
        decreases ops@.len() - i,
    {
        let op = &ops[i];
        operations.push(operation_summary(op));
        proof {
            assert(ops@.take(i as int + 1).drop_last() =~= ops@.take(i as int));
            assert(ops@.take(i as int + 1).last() == ops@[i as int]);
        }
        match op {
            FsOp::CopySymlink { warning: Some(w), .. } => {
                warnings.push(w.clone());
                proof {
                    assert(warnings@.map_values(|w: String| w@) =~= plan_warnings(ops@.take(i as int)).push(w@));
                }
            },
            _ => {},
        }
        i = i + 1;
    }
    assert(ops@.take(ops@.len() as int) =~= ops@);
    ExecutionReport { operations, warnings, dry_run }
}


/// The copy that recreates entry `e` at `dst` from `src`.
pub open spec fn entry_shape(e: ManifestEntry, src: Seq<char>, dst: Seq<char>) -> OpShape {
    match e.kind {
        EntryKind::Directory => OpShape::CreateDir(dst),
        EntryKind::File => OpShape::CopyFile(src, dst),
        EntryKind::Symlink => OpShape::CopySymlink(
            match e.target {
                Some(t) => t@,
                None => Seq::empty(),
            },
            dst,
        ),
    }
}

/// An entry can be copied: a symlink entry records its target.
pub open spec fn copyable(e: ManifestEntry) -> bool {
    e.kind == EntryKind::Symlink ==> e.target is Some
}

pub open spec fn all_copyable(m: Manifest) -> bool {
    forall|i: int| 0 <= i < m.len_spec() ==> copyable(#[trigger] m.records()[i].1)
}

pub fn copy_entry_op(e: &ManifestEntry, source: &str, dest: &str) -> (r: Result<FsOp, WkError>)
    ensures
        r is Ok <==> copyable(*e),
        r matches Ok(op) ==> shape(op) == entry_shape(*e, source@, dest@) && forall|root: Seq<char>| #[trigger] details_ok(op, root),
{
    match e.kind {
        EntryKind::Directory => Ok(FsOp::CreateDir { path: dest.to_owned() }),
        EntryKind::File => Ok(FsOp::CopyFile { source: source.to_owned(), dest: dest.to_owned() }),
        EntryKind::Symlink => match &e.target {
            Some(target) => Ok(
                FsOp::CopySymlink {
                    warning: symlink_warning(target.as_str()),
                    target: target.clone(),
                    dest: dest.to_owned(),
                },
            ),
            None => Err(WkError::message(cat("symlink manifest entry has no target: ", source))),
        },
    }
}

/// The copies of every recorded entry of a directory, in record order.
pub open spec fn record_shapes(recs: Seq<(String, ManifestEntry)>, src: Seq<char>, dst: Seq<char>) -> Seq<OpShape> {
    recs.map_values(|r: (String, ManifestEntry)| entry_shape(r.1, joined(src, r.0@), joined(dst, r.0@)))
}

/// An overlay copy is possible when the source exists and every entry to
/// copy can be copied; a non-directory source must record its root entry.
pub open spec fn overlay_possible(snap: PathSnapshot) -> bool {
    match snap.root {
        None => false,
        Some(EntryKind::Directory) => all_copyable(snap.manifest),
        Some(_) => snap.manifest.has(Seq::empty()) && copyable(snap.manifest.lookup(Seq::empty())->0),
    }
}

/// The overlay copy of a source onto a destination: a directory is created
/// and every entry copied into it, nothing at the destination is removed; a
/// file or symlink root is copied as one entry.
pub open spec fn overlay_shapes(src: Seq<char>, dst: Seq<char>, snap: PathSnapshot) -> Seq<OpShape> {
    match snap.root {
        None => Seq::empty(),
        Some(EntryKind::Directory) => seq![OpShape::CreateDir(dst)] + record_shapes(snap.manifest.records(), src, dst),
        Some(_) => seq![entry_shape(snap.manifest.lookup(Seq::empty())->0, src, dst)],
    }
}

/// Plans the copy of every entry of `source` (rooted at `source_root`) onto
/// `dest_root`, without deleting anything that only the destination has.
pub fn plan_overlay_copy(source_root: &str, dest_root: &str, source: &PathSnapshot) -> (r: Result<Vec<FsOp>, WkError>)
    ensures
        r is Ok <==> overlay_possible(*source),
        r matches Ok(ops) ==> shapes(ops@) == overlay_shapes(source_root@, dest_root@, *source)
            && forall|root: Seq<char>| #[trigger] all_details_ok(ops@, root),
{
    match source.root {
        None => Err(WkError::Io(cat("overlay source does not exist: ", source_root))),
        Some(EntryKind::Directory) => {
            let mut ops: Vec<FsOp> = Vec::new();
            ops.push(FsOp::CreateDir { path: dest_root.to_owned() });
            let m = &source.manifest;
            let n = m.len();
            let mut i: usize = 0;
            while i < n
                invariant
                    n == m.len_spec(),
                    i <= n,
                    source.root == Some(EntryKind::Directory),
                    *m == source.manifest,
                    forall|j: int| 0 <= j < i ==> copyable(#[trigger] m.records()[j].1),
                    shapes(ops@) == seq![OpShape::CreateDir(dest_root@)] + record_shapes(
                        m.records().take(i as int),
                        source_root@,
                        dest_root@,
                    ),
                    forall|root: Seq<char>, j: int| 0 <= j < ops@.len() ==> #[trigger] details_ok(ops@[j], root),
                decreases n - i,
            {
                let key = m.path_at(i);
                let e = m.entry_at(i);
                let src = join_path(source_root, key);
                let dst = join_path(dest_root, key);
                let op = match copy_entry_op(e, src.as_str(), dst.as_str()) {
                    Ok(op) => op,
                    Err(err) => {
                        proof {
                            assert(!copyable(m.records()[i as int].1));
                            assert(!all_copyable(*m));
                        }
                        return Err(err);
                    },
                };
                let ghost before = ops@;
                ops.push(op);
                proof {
                    assert(copyable(m.records()[i as int].1));
                    assert(m.records().take(i as int + 1) =~= m.records().take(i as int).push(m.records()[i as int]));
                    assert(shapes(ops@) =~= shapes(before).push(shape(op)));
                    assert(record_shapes(m.records().take(i as int + 1), source_root@, dest_root@) =~= record_shapes(
                        m.records().take(i as int),
                        source_root@,
                        dest_root@,
                    ).push(entry_shape(*e, src@, dst@)));
                    assert forall|root: Seq<char>, j: int| 0 <= j < ops@.len() implies #[trigger] details_ok(ops@[j], root) by {
                        if j < before.len() {
                            assert(ops@[j] == before[j]);
                        }
                    }
                }
                i = i + 1;
            }
            proof {
                assert(m.records().take(n as int) =~= m.records());
                assert forall|root: Seq<char>| #[trigger] all_details_ok(ops@, root) by {
                    assert(forall|j: int| 0 <= j < ops@.len() ==> #[trigger] details_ok(ops@[j], root));
                }
            }
            Ok(ops)
        },
        Some(_) => {
            match source.manifest.get("") {
                Some(e) => {
                    proof {
                        reveal_strlit("");
                        assert(""@ =~= Seq::<char>::empty());
                        assert(source.manifest.lookup(Seq::empty()) == Some(*e));
                    }
                    let op = match copy_entry_op(e, source_root, dest_root) {
                        Ok(op) => op,
                        Err(err) => {
                            return Err(err);
                        },
                    };
                    let mut ops: Vec<FsOp> = Vec::new();
                    ops.push(op);
                    proof {
                        assert(shapes(ops@) =~= seq![shape(op)]);
                    }
                    Ok(ops)
                },
                None => {
                    proof {
                        reveal_strlit("");
                        assert(""@ =~= Seq::<char>::empty());
                    }
                    Err(WkError::message(cat("overlay source has no root entry: ", source_root)))
                },
            }
        },
    }
}


/// Where entry `k` of a managed path rooted at `root` lives: the root itself
/// for the empty entry path.
pub open spec fn entry_location(root: Seq<char>, k: Seq<char>) -> Seq<char> {
    if k.len() == 0 {
        root
    } else {
        joined(root, k)
    }
}

pub fn join_entry(root: &str, entry_path: &str) -> (p: String)
    ensures
        p@ == entry_location(root@, entry_path@),
{
    if entry_path.unicode_len() == 0 {
        return root.to_owned();
    }
    join_path(root, entry_path)
}

/// A destination entry must be moved to the backups before a source entry
/// is copied over it: it exists, is not a directory, and differs in content.
pub open spec fn needs_backup(src: ManifestEntry, dst: Option<ManifestEntry>) -> bool {
    dst matches Some(d) && d.kind != EntryKind::Directory && !same_identity(src, d)
}

/// The backups of the destination entries that copying `recs` would replace,
/// in record order.
pub open spec fn backup_shapes(recs: Seq<(String, ManifestEntry)>, dest: Manifest, dst: Seq<char>) -> Seq<OpShape>
    decreases recs.len(),
{
    if recs.len() == 0 {
        Seq::empty()
    } else {
        backup_shapes(recs.drop_last(), dest, dst) + if needs_backup(recs.last().1, dest.lookup(recs.last().0@)) {
            seq![OpShape::Backup(entry_location(dst, recs.last().0@))]
        } else {
            Seq::empty()
        }
    }
}

/// The destination root itself is in the way of a source directory.
pub open spec fn root_in_the_way(snap: PathSnapshot, dest: Manifest) -> bool {
    &&& snap.root == Some(EntryKind::Directory)
    &&& dest.lookup(Seq::empty()) matches Some(d) && d.kind != EntryKind::Directory
}

/// The backups an overlay copy of `snap` onto a destination with manifest
/// `dest` needs first.
pub open spec fn overlay_backups(snap: PathSnapshot, dest: Manifest, dst: Seq<char>) -> Seq<OpShape> {
    (if root_in_the_way(snap, dest) {
        seq![OpShape::Backup(dst)]
    } else {
        Seq::empty()
    }) + backup_shapes(snap.manifest.records(), dest, dst)
}

/// Plans an overlay copy that first moves every destination entry it would
/// replace with different content into `backup_root`, then copies as
/// `plan_overlay_copy` does.
pub fn plan_overlay_copy_with_backups(
    source_root: &str,
    dest_root: &str,
    source: &PathSnapshot,
    dest: &Manifest,
    backup_root: &str,
) -> (r: Result<Vec<FsOp>, WkError>)
    ensures
        r is Ok <==> overlay_possible(*source),
        r matches Ok(ops) ==> shapes(ops@) == overlay_backups(*source, *dest, dest_root@) + overlay_shapes(
            source_root@,
            dest_root@,
            *source,
        ) && all_details_ok(ops@, backup_root@),
{
    let mut ops: Vec<FsOp> = Vec::new();
    let root_blocked = match source.root {
        Some(EntryKind::Directory) => match dest.get("") {
            Some(d) => d.kind != EntryKind::Directory,
            None => false,
        },
        _ => false,
    };
    proof {
        reveal_strlit("");
        assert(""@ =~= Seq::<char>::empty());
        assert(root_blocked == root_in_the_way(*source, *dest));
    }
    if root_blocked {
        ops.push(backup_path_op(dest_root, backup_root));
    }
    let ghost head = ops@;
    proof {
        assert(shapes(ops@) =~= (if root_in_the_way(*source, *dest) {
            seq![OpShape::Backup(dest_root@)]
        } else {
            Seq::<OpShape>::empty()
        }) + backup_shapes(source.manifest.records().take(0), *dest, dest_root@));
    }
    let m = &source.manifest;
    let n = m.len();
    let mut i: usize = 0;
    while i < n
        invariant
            n == m.len_spec(),
            i <= n,
            *m == source.manifest,
            shapes(ops@) == (if root_in_the_way(*source, *dest) {
                seq![OpShape::Backup(dest_root@)]
            } else {
                Seq::<OpShape>::empty()
            }) + backup_shapes(m.records().take(i as int), *dest, dest_root@),
            all_details_ok(ops@, backup_root@),
        decreases n - i,
    {
        let key = m.path_at(i);
        let e = m.entry_at(i);
        let ghost before = ops@;
        let ghost recs = m.records().take(i as int + 1);
        proof {
            assert(recs.drop_last() =~= m.records().take(i as int));
            assert(recs.last() == m.records()[i as int]);
        }
        let replace = match dest.get(key) {
            Some(d) => d.kind != EntryKind::Directory && !e.has_same_content_identity(d),
            None => false,
        };
        proof {
            assert(key@ == recs.last().0@);
            assert(*e == recs.last().1);
            assert(replace == needs_backup(recs.last().1, dest.lookup(recs.last().0@)));
        }
        if replace {
            let loc = join_entry(dest_root, key);
            let op = backup_path_op(loc.as_str(), backup_root);
            ops.push(op);
            proof {
                assert(shapes(ops@) =~= shapes(before).push(shape(op)));
            }
        } else {
            proof {
                assert(ops@ == before);
            }
        }
        proof {
            assert(shapes(ops@) =~= (if root_in_the_way(*source, *dest) {
                seq![OpShape::Backup(dest_root@)]
            } else {
                Seq::<OpShape>::empty()
            }) + backup_shapes(recs, *dest, dest_root@));
            assert forall|j: int| 0 <= j < ops@.len() implies details_ok(#[trigger] ops@[j], backup_root@) by {
                if j < before.len() {
                    assert(ops@[j] == before[j]);
                }
            }
        }
        i = i + 1;
    }
    proof {
        assert(m.records().take(n as int) =~= m.records());
    }
    let mut copies = match plan_overlay_copy(source_root, dest_root, source) {
        Ok(c) => c,
        Err(err) => {
            return Err(err);
        },
    };
    let ghost backups = ops@;
    let ghost copies_v = copies@;
    ops.append(&mut copies);
    proof {
        assert(shapes(ops@) =~= shapes(backups) + shapes(copies_v));
        assert(all_details_ok(copies_v, backup_root@));
        assert forall|j: int| 0 <= j < ops@.len() implies details_ok(#[trigger] ops@[j], backup_root@) by {
            if j < backups.len() {
                assert(ops@[j] == backups[j]);
            } else {
                assert(ops@[j] == copies_v[j - backups.len()]);
            }
        }
    }
    Ok(ops)
}

impl FsOp {
    /// A copy with equal strings and contents.
    pub fn duplicate(&self) -> (op: Self)
        ensures
            shape(op) == shape(*self),
            forall|r: Seq<char>| details_ok(*self, r) ==> details_ok(op, r),
    {
        match self {
            FsOp::CreateDir { path } => FsOp::CreateDir { path: path.clone() },
            FsOp::CopyFile { source, dest } => FsOp::CopyFile { source: source.clone(), dest: dest.clone() },
            FsOp::CopySymlink { target, dest, warning } => FsOp::CopySymlink {
                target: target.clone(),
                dest: dest.clone(),
                warning: match warning {
                    Some(w) => Some(w.clone()),
                    None => None,
                },
            },
            FsOp::RemoveFile { path } => FsOp::RemoveFile { path: path.clone() },
            FsOp::RemoveEmptyDir { path } => FsOp::RemoveEmptyDir { path: path.clone() },
            FsOp::BackupPath { path, backup } => FsOp::BackupPath { path: path.clone(), backup: backup.clone() },
            FsOp::WriteFileAtomic { path, contents } => {
                let c = contents.clone();
                assert(c@ =~= contents@);
                FsOp::WriteFileAtomic { path: path.clone(), contents: c }
            },
            FsOp::SetPermissions { path, mode } => FsOp::SetPermissions { path: path.clone(), mode: *mode },
        }
    }
}

} // verus!
