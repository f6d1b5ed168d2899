//! Content manifests: what a managed path holds, entry by entry.
use vstd::prelude::*;

use crate::keyed::{
    distinct_keys, find_key, insert_record, lemma_seq_lookup_at, lemma_seq_lookup_none, seq_has, seq_lookup,
    sorted_keys,
};
use crate::error::WkError;
use crate::text::{cat, opt_string_eq, opt_view, path_less};

verus! {

#[derive(Clone, Copy, Debug, PartialEq, Eq, Structural)]
pub enum EntryKind {
    File,
    Directory,
    Symlink,
}

/// One filesystem entry below a managed path. `hash` is the SHA-256 of a
/// file's contents, `target` the target of a symlink; `size` and `mtime` are
/// metadata that content identity ignores.
#[derive(Clone, Debug)]
pub struct ManifestEntry {
    pub kind: EntryKind,
    pub hash: Option<String>,
    pub target: Option<String>,
    pub executable: bool,
    pub size: u64,
    pub mtime: i128,
}

/// Two entries have the same content identity when kind, content hash,
/// symlink target and executable bit agree; size and mtime do not count.
pub open spec fn same_identity(a: ManifestEntry, b: ManifestEntry) -> bool {
    &&& a.kind == b.kind
    &&& opt_view(a.hash) == opt_view(b.hash)
    &&& opt_view(a.target) == opt_view(b.target)
    &&& a.executable == b.executable
}

/// Identity of entries that may be absent: both absent, or both present and
/// identical.
pub open spec fn same_opt_identity(a: Option<ManifestEntry>, b: Option<ManifestEntry>) -> bool {
    match (a, b) {
        (Some(x), Some(y)) => same_identity(x, y),
        (None, None) => true,
        _ => false,
    }
}

impl ManifestEntry {
    pub fn has_same_content_identity(&self, other: &Self) -> (same: bool)
        ensures
            same <==> same_identity(*self, *other),
    {
        self.kind == other.kind && opt_string_eq(&self.hash, &other.hash) && opt_string_eq(
            &self.target,
            &other.target,
        ) && self.executable == other.executable
    }

    /// A copy with the same fields; the strings keep their contents.
    pub fn duplicate(&self) -> (e: Self)
        ensures
            e.kind == self.kind,
            opt_view(e.hash) == opt_view(self.hash),
            opt_view(e.target) == opt_view(self.target),
            e.executable == self.executable,
            e.size == self.size,
            e.mtime == self.mtime,
            same_identity(e, *self),
    {
        ManifestEntry {
            kind: self.kind,
            hash: clone_opt(&self.hash),
            target: clone_opt(&self.target),
            executable: self.executable,
            size: self.size,
            mtime: self.mtime,
        }
    }
}

fn clone_opt(o: &Option<String>) -> (c: Option<String>)
    ensures
        opt_view(c) == opt_view(*o),
{
    match o {
        Some(s) => Some(s.clone()),
        None => None,
    }
}

/// The entries of a managed path, keyed by their path relative to it (the
/// empty path for a single-file or symlink root). Each path occurs once.
/// Two manifests have the same content when they record the same number of
/// paths and every path of the first is recorded in the second with an entry
/// of the same content identity.
pub open spec fn same_content(a: Manifest, b: Manifest) -> bool {
    &&& a.len_spec() == b.len_spec()
    &&& forall|k: Seq<char>| #[trigger] a.has(k) ==> b.has(k) && same_identity(
        a.lookup(k)->0,
        b.lookup(k)->0,
    )
}

/// Field-by-field equality of entries, strings compared by content.
pub open spec fn same_entry(a: ManifestEntry, b: ManifestEntry) -> bool {
    &&& same_identity(a, b)
    &&& a.size == b.size
    &&& a.mtime == b.mtime
}

pub open spec fn same_opt_entry(a: Option<ManifestEntry>, b: Option<ManifestEntry>) -> bool {
    match (a, b) {
        (Some(x), Some(y)) => same_entry(x, y),
        (None, None) => true,
        _ => false,
    }
}

/// Two manifests record the same paths with field-by-field equal entries.
pub open spec fn same_records(a: Manifest, b: Manifest) -> bool {
    forall|k: Seq<char>| #[trigger] same_opt_entry(a.lookup(k), b.lookup(k))
}

#[derive(Debug)]
pub struct Manifest {
    entries: Vec<(String, ManifestEntry)>,
}

impl Manifest {
    #[verifier::type_invariant]
    closed spec fn inv(self) -> bool {
        distinct_keys(self.entries@) && sorted_keys(self.entries@)
    }

    /// The entries in path order, each path once.
    pub closed spec fn records(self) -> Seq<(String, ManifestEntry)> {
        self.entries@
    }

    pub open spec fn key(self, i: int) -> Seq<char> {
        self.records()[i].0@
    }

    pub open spec fn has(self, k: Seq<char>) -> bool {
        seq_has(self.records(), k)
    }

    /// The entry recorded for `k`.
    pub open spec fn lookup(self, k: Seq<char>) -> Option<ManifestEntry> {
        seq_lookup(self.records(), k)
    }

    pub open spec fn len_spec(self) -> nat {
        self.records().len()
    }

    pub fn new() -> (m: Self)
        ensures
            m.len_spec() == 0,
            forall|k: Seq<char>| #![trigger m.lookup(k)] !m.has(k) && m.lookup(k) is None,
    {
        Manifest { entries: Vec::new() }
    }

    pub fn len(&self) -> (n: usize)
        ensures
            n == self.len_spec(),
    {
        self.entries.len()
    }

    pub fn path_at(&self, i: usize) -> (p: &str)
        requires
            i < self.len_spec(),
        ensures
            p@ == self.key(i as int),
            self.has(p@),
            self.lookup(p@) == Some(self.records()[i as int].1),
    {
        proof {
            use_type_invariant(self);
            lemma_seq_lookup_at(self.records(), i as int);
        }
        self.entries[i].0.as_str()
    }

    pub fn entry_at(&self, i: usize) -> (e: &ManifestEntry)
        requires
            i < self.len_spec(),
        ensures
            *e == self.records()[i as int].1,
            self.lookup(self.key(i as int)) == Some(*e),
    {
        proof {
            use_type_invariant(self);
            lemma_seq_lookup_at(self.records(), i as int);
        }
        &self.entries[i].1
    }

    fn index_of(&self, path: &str) -> (r: Option<usize>)
        ensures
            match r {
                Some(i) => i < self.len_spec() && self.key(i as int) == path@ && self.lookup(path@)
                    == Some(self.records()[i as int].1),
                None => !self.has(path@) && self.lookup(path@) is None,
            },
    {
        proof {
            use_type_invariant(self);
        }
        find_key(&self.entries, path)
    }

    pub fn get(&self, path: &str) -> (e: Option<&ManifestEntry>)
        ensures
            match e {
                Some(x) => self.lookup(path@) == Some(*x),
                None => self.lookup(path@) is None,
            },
    {
        match self.index_of(path) {
            Some(i) => Some(&self.entries[i].1),
            None => None,
        }
    }

    pub fn contains_key(&self, path: &str) -> (b: bool)
        ensures
            b <==> self.has(path@),
            b <==> self.lookup(path@) is Some,
    {
        self.index_of(path).is_some()
    }

    /// Records `entry` under `path`, replacing what was there.
    pub fn insert(&mut self, path: String, entry: ManifestEntry)
        ensures
            forall|k: Seq<char>| #![trigger final(self).lookup(k)]
                final(self).lookup(k) == if k == path@ {
                    Some(entry)
                } else {
                    old(self).lookup(k)
                },
    {
        proof {
            use_type_invariant(&*self);
        }
        let ghost old_records = self.records();
        let ghost p = path@;
        match self.index_of(path.as_str()) {
            Some(i) => {
                let mut records: Vec<(String, ManifestEntry)> = Vec::new();
                std::mem::swap(&mut records, &mut self.entries);
                records.set(i, (path, entry));
                proof {
                    assert forall|j: int| 0 <= j < records@.len() implies #[trigger] records@[j].0@ == old_records[j].0@ by {
                    }
                    assert(sorted_keys(records@));
                }
                self.entries = records;
                proof {
                    let s = self.entries@;
                    assert(distinct_keys(s));
                    assert forall|k: Seq<char>| #![trigger seq_lookup(s, k)]
                        seq_lookup(s, k) == if k == p { Some(entry) } else { seq_lookup(old_records, k) } by {
                        if k == p {
                            lemma_seq_lookup_at(s, i as int);
                        } else if seq_has(old_records, k) {
                            let j = choose|j: int| 0 <= j < old_records.len() && #[trigger] old_records[j].0@ == k;
                            lemma_seq_lookup_at(old_records, j);
                            lemma_seq_lookup_at(s, j);
                        } else {
                            lemma_seq_lookup_none(s, k);
                        }
                    }
                }
            },
            None => {
                self.push_new(path, entry);
            },
        }
    }

    /// Drops the record for `path`, if any.
    pub fn remove(&mut self, path: &str)
        ensures
            forall|k: Seq<char>| #![trigger final(self).lookup(k)]
                final(self).lookup(k) == if k == path@ {
                    None
                } else {
                    old(self).lookup(k)
                },
    {
        proof {
            use_type_invariant(&*self);
        }
        let ghost old_records = self.records();
        match self.index_of(path) {
            Some(i) => {
                let mut records: Vec<(String, ManifestEntry)> = Vec::new();
                std::mem::swap(&mut records, &mut self.entries);
                records.remove(i);
                proof {
                    assert(records@ =~= old_records.remove(i as int));
                    assert forall|a: int, b: int| 0 <= a < records@.len() && 0 <= b < records@.len() && a != b
                        implies records@[a].0@ != records@[b].0@ by {
                        let a0 = if a < i { a } else { a + 1 };
                        let b0 = if b < i { b } else { b + 1 };
                        assert(records@[a] == old_records[a0]);
                        assert(records@[b] == old_records[b0]);
                    }
                    assert forall|a: int, b: int| 0 <= a < b < records@.len() implies path_less(
                        #[trigger] records@[a].0@,
                        #[trigger] records@[b].0@,
                    ) by {
                        let a0 = if a < i { a } else { a + 1 };
                        let b0 = if b < i { b } else { b + 1 };
                        assert(records@[a] == old_records[a0]);
                        assert(records@[b] == old_records[b0]);
                    }
                }
                self.entries = records;
                proof {
                    let s = self.entries@;
                    assert(s =~= old_records.remove(i as int));
                    assert(distinct_keys(s));
                    assert forall|k: Seq<char>| #![trigger seq_lookup(s, k)]
                        seq_lookup(s, k) == if k == path@ { None } else { seq_lookup(old_records, k) } by {
                        if k == path@ {
                            lemma_seq_lookup_none(s, k);
                        } else if seq_has(old_records, k) {
                            let j = choose|j: int| 0 <= j < old_records.len() && #[trigger] old_records[j].0@ == k;
                            lemma_seq_lookup_at(old_records, j);
                            if j < i {
                                lemma_seq_lookup_at(s, j);
                            } else {
                                assert(j != i);
                                lemma_seq_lookup_at(s, j - 1);
                            }
                        } else {
                            lemma_seq_lookup_none(s, k);
                        }
                    }
                }
            },
            None => {},
        }
    }
}


impl Manifest {
    /// Whether both manifests record the same paths with the same content
    /// identity (sizes and mtimes are ignored).
    pub fn has_same_content_identity(&self, other: &Self) -> (same: bool)
        ensures
            same <==> same_content(*self, *other),
    {
        if self.len() != other.len() {
            return false;
        }
        let n = self.len();
        let mut i: usize = 0;
        while i < n
            invariant
                n == self.len_spec(),
                self.len_spec() == other.len_spec(),
                i <= n,
                forall|j: int| 0 <= j < i ==> #[trigger] other.has(self.key(j)) && same_identity(
                    self.lookup(self.key(j))->0,
                    other.lookup(self.key(j))->0,
                ),
            decreases n - i,
        {
            let path = self.path_at(i);
            let entry = self.entry_at(i);
            match other.get(path) {
                Some(theirs) => {
                    if !entry.has_same_content_identity(theirs) {
                        return false;
                    }
                },
                None => {
                    return false;
                },
            }
            i = i + 1;
        }
        proof {
            assert forall|k: Seq<char>| #[trigger] self.has(k) implies other.has(k) && same_identity(
                self.lookup(k)->0,
                other.lookup(k)->0,
            ) by {
                let j = choose|j: int| 0 <= j < self.records().len() && #[trigger] self.records()[j].0@ == k;
                assert(self.key(j) == k);
            }
        }
        true
    }

    /// A copy recording the same paths with equal entries.
    pub fn duplicate(&self) -> (m: Self)
        ensures
            same_records(*self, m),
            m.len_spec() == self.len_spec(),
    {
        let mut out = Manifest::new();
        let n = self.len();
        let mut i: usize = 0;
        proof {
            use_type_invariant(self);
        }
        while i < n
            invariant
                n == self.len_spec(),
                i <= n,
                distinct_keys(self.records()),
                out.len_spec() == i,
                forall|k: Seq<char>| #![trigger out.lookup(k)]
                    same_opt_entry(out.lookup(k), if exists|j: int| 0 <= j < i && self.key(j) == k {
                        self.lookup(k)
                    } else {
                        None
                    }),
            decreases n - i,
        {
            let path = self.path_at(i);
            let entry = self.entry_at(i).duplicate();
            let ghost before = out;
            proof {
                assert(!out.has(path@)) by {
                    if out.has(path@) {
                        assert(out.lookup(path@) is Some);
                        let j = choose|j: int| 0 <= j < i && self.key(j) == path@;
                        assert(self.records()[j].0@ == self.records()[i as int].0@);
                    }
                };
            }
            out.push_new(path.to_owned(), entry);
            proof {
                assert forall|k: Seq<char>| #![trigger out.lookup(k)]
                    same_opt_entry(out.lookup(k), if exists|j: int| 0 <= j < i + 1 && self.key(j) == k {
                        self.lookup(k)
                    } else {
                        None
                    }) by {
                    if k == path@ {
                        assert(self.key(i as int) == k);
                    } else {
                        if exists|j: int| 0 <= j < i + 1 && self.key(j) == k {
                            let j = choose|j: int| 0 <= j < i + 1 && self.key(j) == k;
                            assert(j < i);
                        }
                        assert(out.lookup(k) == before.lookup(k));
                    }
                }
            }
            i = i + 1;
        }
        proof {
            assert forall|k: Seq<char>| #[trigger] same_opt_entry(self.lookup(k), out.lookup(k)) by {
                if self.has(k) {
                    let j = choose|j: int| 0 <= j < self.records().len() && #[trigger] self.records()[j].0@ == k;
                    assert(self.key(j) == k);
                }
                assert(same_opt_entry(out.lookup(k), if exists|j: int| 0 <= j < n && self.key(j) == k {
                    self.lookup(k)
                } else {
                    None
                }));
            }
        }
        out
    }

    /// Appends a record whose path is not yet present.
    fn push_new(&mut self, path: String, entry: ManifestEntry)
        requires
            !old(self).has(path@),
        ensures
            final(self).len_spec() == old(self).len_spec() + 1,
            forall|k: Seq<char>| #![trigger final(self).lookup(k)]
                final(self).lookup(k) == if k == path@ {
                    Some(entry)
                } else {
                    old(self).lookup(k)
                },
            forall|k: Seq<char>| #![trigger final(self).has(k)]
                final(self).has(k) <==> (k == path@ || old(self).has(k)),
    {
        proof {
            use_type_invariant(&*self);
        }
        let mut records: Vec<(String, ManifestEntry)> = Vec::new();
        std::mem::swap(&mut records, &mut self.entries);
        insert_record(&mut records, (path, entry));
        self.entries = records;
    }
}


/// What a managed path looks like on disk: the kind of its root (`None` when
/// it does not exist) and the manifest of its contents.
#[derive(Debug)]
pub struct PathSnapshot {
    pub root: Option<EntryKind>,
    pub manifest: Manifest,
}


/// The lowercase hexadecimal SHA-256 digest of some bytes, as
/// `sha2::Sha256` computes it and `{:x}` prints it.
pub uninterp spec fn sha256_hex(bytes: Seq<u8>) -> Seq<char>;

/// Calls `sha2::Sha256::digest` and prints the digest in lowercase hex; the
/// result is what `sha256_hex` names.
#[verifier::external_body]
fn hash_bytes(bytes: &[u8]) -> (h: String)
    ensures
        h@ == sha256_hex(bytes@),
{
    format!("{:x}", <sha2::Sha256 as sha2::Digest>::digest(bytes))
}

/// The kind of an entry from its file type: a symlink before a directory
/// before a regular file; anything else is not supported.
pub fn entry_kind(path: &str, is_symlink: bool, is_dir: bool, is_file: bool) -> (r: Result<EntryKind, WkError>)
    ensures
        is_symlink ==> r == Ok::<EntryKind, WkError>(EntryKind::Symlink),
        !is_symlink && is_dir ==> r == Ok::<EntryKind, WkError>(EntryKind::Directory),
        !is_symlink && !is_dir && is_file ==> r == Ok::<EntryKind, WkError>(EntryKind::File),
        !is_symlink && !is_dir && !is_file ==> r is Err,
{
    if is_symlink {
        return Ok(EntryKind::Symlink);
    }
    if is_dir {
        return Ok(EntryKind::Directory);
    }
    if is_file {
        return Ok(EntryKind::File);
    }
    Err(WkError::message(cat("unsupported filesystem entry in manifest: ", path)))
}

/// Nanoseconds relative to the epoch: positive after it, negative before.
pub fn modified_nanos(after_epoch: bool, secs: u64, subsec_nanos: u32) -> (n: i128)
    requires
        subsec_nanos < 1_000_000_000,
    ensures
        after_epoch ==> n == secs * 1_000_000_000 + subsec_nanos,
        !after_epoch ==> n == -(secs * 1_000_000_000 + subsec_nanos),
{
    let magnitude: i128 = (secs as i128) * 1_000_000_000i128 + (subsec_nanos as i128);
    if after_epoch {
        magnitude
    } else {
        -magnitude
    }
}

/// What is observed of one filesystem entry: its file type, the contents of
/// a regular file, the target of a symlink, and its metadata.
#[derive(Debug)]
pub struct EntryObservation {
    pub is_symlink: bool,
    pub is_dir: bool,
    pub is_file: bool,
    pub contents: Vec<u8>,
    pub link_target: Option<String>,
    pub executable: bool,
    pub size: u64,
    pub mtime: i128,
}

/// The manifest entry of an observed filesystem entry: a file carries the
/// SHA-256 of its contents, a symlink its target.
pub fn manifest_entry(path: &str, obs: &EntryObservation) -> (r: Result<ManifestEntry, WkError>)
    ensures
        r matches Ok(e) ==> {
            &&& (e.kind == EntryKind::File) ==> opt_view(e.hash) == Some(sha256_hex(obs.contents@))
            &&& (e.kind != EntryKind::File) ==> e.hash is None
            &&& (e.kind == EntryKind::Symlink) ==> opt_view(e.target) == opt_view(obs.link_target) && e.target is Some
            &&& (e.kind != EntryKind::Symlink) ==> e.target is None
            &&& e.executable == obs.executable
            &&& e.size == obs.size
            &&& e.mtime == obs.mtime
            &&& (obs.is_symlink ==> e.kind == EntryKind::Symlink)
            &&& (!obs.is_symlink && obs.is_dir ==> e.kind == EntryKind::Directory)
            &&& (!obs.is_symlink && !obs.is_dir ==> e.kind == EntryKind::File)
        },
        (obs.is_symlink ==> obs.link_target is Some) && (obs.is_symlink || obs.is_dir || obs.is_file) ==> r is Ok,
        !(obs.is_symlink || obs.is_dir || obs.is_file) ==> r is Err,
        obs.is_symlink && obs.link_target is None ==> r is Err,
{
    let kind = match entry_kind(path, obs.is_symlink, obs.is_dir, obs.is_file) {
        Ok(k) => k,
        Err(err) => {
            return Err(err);
        },
    };
    let hash = if kind == EntryKind::File {
        Some(hash_bytes(obs.contents.as_slice()))
    } else {
        None
    };
    let target = if kind == EntryKind::Symlink {
        match &obs.link_target {
            Some(t) => Some(t.clone()),
            None => {
                return Err(WkError::message(cat("symlink without a target: ", path)));
            },
        }
    } else {
        None
    };
    Ok(ManifestEntry { kind, hash, target, executable: obs.executable, size: obs.size, mtime: obs.mtime })
}

/// A directory walk keeps an entry unless it is the root itself or lies in
/// `.git` or `.wk`.
pub open spec fn walk_keeps(k: Seq<char>) -> bool {
    k.len() > 0 && !crate::discovery::is_reserved(k)
}

/// The manifest of a directory from the entries its walk found, keyed by
/// their paths relative to it.
pub fn manifest_from_walk(entries: Vec<(String, ManifestEntry)>) -> (m: Manifest)
    ensures
        forall|k: Seq<char>| #[trigger] m.has(k) <==> walk_keeps(k) && exists|i: int| 0 <= i < entries@.len()
            && entries@[i].0@ == k,
        forall|k: Seq<char>| #[trigger] m.has(k) ==> exists|i: int| 0 <= i < entries@.len() && entries@[i].0@ == k
            && m.lookup(k) == Some(entries@[i].1),
{
    let mut m = Manifest::new();
    let ghost all = entries@;
    let n = entries.len();
    let mut i: usize = 0;
    let mut rest = entries;
    while rest.len() > 0
        invariant
            n == all.len(),
            i + rest@.len() == all.len(),
            rest@ == all.skip(i as int),
            forall|k: Seq<char>| #[trigger] m.has(k) <==> walk_keeps(k) && exists|j: int| 0 <= j < i && all[j].0@ == k,
            forall|k: Seq<char>| #[trigger] m.has(k) ==> exists|j: int| 0 <= j < i && all[j].0@ == k && m.lookup(k) == Some(
                all[j].1,
            ),
        decreases rest@.len(),
    {
        let (path, entry) = rest.remove(0);
        proof {
            assert(all[i as int] == (path, entry));
            assert(rest@ =~= all.skip(i as int + 1));
        }
        let keep = path.unicode_len() > 0 && !crate::discovery::is_reserved_exec(path.as_str());
        let ghost m0 = m;
        let ghost p = path@;
        let ghost e = entry;
        proof {
            assert(keep == walk_keeps(p));
        }
        if keep {
            m.insert(path, entry);
        }
        proof {
            assert forall|k: Seq<char>| #[trigger] m.has(k) <==> walk_keeps(k) && exists|j: int| 0 <= j < i + 1 && all[j].0@ == k by {
                assert(m.has(k) <==> m.lookup(k) is Some);
                assert(m0.has(k) <==> m0.lookup(k) is Some);
                if keep {
                    assert(m.lookup(k) == if k == p { Some(e) } else { m0.lookup(k) });
                }
                if k == p && keep {
                    assert(all[i as int].0@ == k);
                }
                if walk_keeps(k) && exists|j: int| 0 <= j < i + 1 && all[j].0@ == k {
                    let j = choose|j: int| 0 <= j < i + 1 && all[j].0@ == k;
                    if j < i {
                        assert(m0.has(k));
                    }
                }
            }
            assert forall|k: Seq<char>| #[trigger] m.has(k) implies exists|j: int| 0 <= j < i + 1 && all[j].0@ == k && m.lookup(k)
                == Some(all[j].1) by {
                if keep && k == p {
                    assert(all[i as int].0@ == k && m.lookup(k) == Some(all[i as int].1));
                } else {
                    if keep {
                        assert(m.lookup(k) == m0.lookup(k));
                    }
                    assert(m0.has(k));
                }
            }
        }
        i = i + 1;
    }
    m
}
} // verus!
