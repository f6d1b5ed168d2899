//! Three-way drift classification between the last clean state and the
//! current contents of the source and worktree copies.
use vstd::prelude::*;

use crate::keyed::{distinct_keys, find_key, insert_record, lemma_seq_lookup_at, seq_has, seq_lookup, sorted_keys};
use crate::manifest::{same_opt_identity, Manifest, ManifestEntry};

verus! {

/// How one entry moved since the last clean sync.
#[derive(Clone, Copy, Debug, PartialEq, Eq, Structural)]
pub enum EntryDrift {
    Unchanged,
    SourceAdded,
    WorktreeAdded,
    SourceModified,
    WorktreeModified,
    SourceDeleted,
    WorktreeDeleted,
    BothChangedIdentically,
    BothChangedDifferently,
}

pub open spec fn source_only_spec(base: Option<ManifestEntry>, current: Option<ManifestEntry>) -> EntryDrift {
    match (base, current) {
        (None, Some(_)) => EntryDrift::SourceAdded,
        (Some(_), None) => EntryDrift::SourceDeleted,
        (Some(_), Some(_)) => EntryDrift::SourceModified,
        (None, None) => EntryDrift::Unchanged,
    }
}

pub open spec fn worktree_only_spec(base: Option<ManifestEntry>, current: Option<ManifestEntry>) -> EntryDrift {
    match (base, current) {
        (None, Some(_)) => EntryDrift::WorktreeAdded,
        (Some(_), None) => EntryDrift::WorktreeDeleted,
        (Some(_), Some(_)) => EntryDrift::WorktreeModified,
        (None, None) => EntryDrift::Unchanged,
    }
}

/// The drift of one entry: a side changed when its current entry differs in
/// content identity from its base entry. When both changed, the entry is a
/// conflict unless both sides now agree.
pub open spec fn classify_spec(
    base_source: Option<ManifestEntry>,
    base_worktree: Option<ManifestEntry>,
    current_source: Option<ManifestEntry>,
    current_worktree: Option<ManifestEntry>,
) -> EntryDrift {
    let source_changed = !same_opt_identity(current_source, base_source);
    let worktree_changed = !same_opt_identity(current_worktree, base_worktree);
    if !source_changed && !worktree_changed {
        EntryDrift::Unchanged
    } else if source_changed && !worktree_changed {
        source_only_spec(base_source, current_source)
    } else if !source_changed && worktree_changed {
        worktree_only_spec(base_worktree, current_worktree)
    } else if same_opt_identity(current_source, current_worktree) {
        EntryDrift::BothChangedIdentically
    } else {
        EntryDrift::BothChangedDifferently
    }
}

/// The per-entry drift of a managed path, each entry path once.
#[derive(Debug)]
pub struct DriftReport {
    entries: Vec<(String, EntryDrift)>,
}

impl DriftReport {
    #[verifier::type_invariant]
    closed spec fn inv(self) -> bool {
        distinct_keys(self.entries@) && sorted_keys(self.entries@)
    }

    pub closed spec fn records(self) -> Seq<(String, EntryDrift)> {
        self.entries@
    }

    pub open spec fn has(self, k: Seq<char>) -> bool {
        seq_has(self.records(), k)
    }

    pub open spec fn lookup(self, k: Seq<char>) -> Option<EntryDrift> {
        seq_lookup(self.records(), k)
    }

    pub open spec fn len_spec(self) -> nat {
        self.records().len()
    }

    pub open spec fn drift_at(self, i: int) -> EntryDrift {
        self.records()[i].1
    }

    /// Some entry changed differently on both sides.
    pub open spec fn conflicted(self) -> bool {
        exists|i: int| 0 <= i < self.len_spec() && #[trigger] self.drift_at(i)
            == EntryDrift::BothChangedDifferently
    }

    /// Every entry is unchanged or converged to identical content.
    pub open spec fn clean_after_refresh(self) -> bool {
        forall|i: int| #![trigger self.drift_at(i)] 0 <= i < self.len_spec() ==> self.drift_at(i)
            == EntryDrift::Unchanged || self.drift_at(i) == EntryDrift::BothChangedIdentically
    }

    pub fn has_conflict(&self) -> (b: bool)
        ensures
            b <==> self.conflicted(),
    {
        let mut i: usize = 0;
        while i < self.entries.len()
            invariant
                i <= self.entries@.len(),
                self.entries@ == self.records(),
                forall|j: int| 0 <= j < i ==> self.drift_at(j) != EntryDrift::BothChangedDifferently,
            decreases self.entries@.len() - i,
        {
            if self.entries[i].1 == EntryDrift::BothChangedDifferently {
                assert(self.drift_at(i as int) == EntryDrift::BothChangedDifferently);
                return true;
            }
            i = i + 1;
        }
        false
    }

    pub fn is_clean_after_refresh(&self) -> (b: bool)
        ensures
            b <==> self.clean_after_refresh(),
    {
        let mut i: usize = 0;
        while i < self.entries.len()
            invariant
                i <= self.entries@.len(),
                self.entries@ == self.records(),
                forall|j: int| #![trigger self.drift_at(j)] 0 <= j < i ==> self.drift_at(j)
                    == EntryDrift::Unchanged || self.drift_at(j) == EntryDrift::BothChangedIdentically,
            decreases self.entries@.len() - i,
        {
            let d = self.entries[i].1;
            if !(d == EntryDrift::Unchanged || d == EntryDrift::BothChangedIdentically) {
                assert(!(self.drift_at(i as int) == EntryDrift::Unchanged || self.drift_at(i as int)
                    == EntryDrift::BothChangedIdentically));
                return false;
            }
            i = i + 1;
        }
        true
    }

    pub fn len(&self) -> (n: usize)
        ensures
            n == self.len_spec(),
            distinct_keys(self.records()),
    {
        proof {
            use_type_invariant(self);
        }
        self.entries.len()
    }

    pub fn path_at(&self, i: usize) -> (p: &str)
        requires
            i < self.len_spec(),
        ensures
            p@ == self.records()[i as int].0@,
            self.lookup(p@) == Some(self.drift_at(i as int)),
    {
        proof {
            use_type_invariant(self);
            lemma_seq_lookup_at(self.records(), i as int);
        }
        self.entries[i].0.as_str()
    }

    pub fn drift_at_index(&self, i: usize) -> (d: EntryDrift)
        requires
            i < self.len_spec(),
        ensures
            d == self.drift_at(i as int),
    {
        self.entries[i].1
    }

    pub fn get(&self, path: &str) -> (d: Option<EntryDrift>)
        ensures
            d == self.lookup(path@),
    {
        proof {
            use_type_invariant(self);
        }
        match find_key(&self.entries, path) {
            Some(i) => Some(self.entries[i].1),
            None => None,
        }
    }
}

pub fn same_entry_identity(left: Option<&ManifestEntry>, right: Option<&ManifestEntry>) -> (same: bool)
    ensures
        same <==> same_opt_identity(
            match left {
                Some(e) => Some(*e),
                None => None,
            },
            match right {
                Some(e) => Some(*e),
                None => None,
            },
        ),
{
    match (left, right) {
        (Some(l), Some(r)) => l.has_same_content_identity(r),
        (None, None) => true,
        _ => false,
    }
}

pub open spec fn deref_opt(o: Option<&ManifestEntry>) -> Option<ManifestEntry> {
    match o {
        Some(e) => Some(*e),
        None => None,
    }
}

fn classify_entry(
    base_source: Option<&ManifestEntry>,
    base_worktree: Option<&ManifestEntry>,
    current_source: Option<&ManifestEntry>,
    current_worktree: Option<&ManifestEntry>,
) -> (d: EntryDrift)
    ensures
        d == classify_spec(
            deref_opt(base_source),
            deref_opt(base_worktree),
            deref_opt(current_source),
            deref_opt(current_worktree),
        ),
{
    let source_changed = !same_entry_identity(current_source, base_source);
    let worktree_changed = !same_entry_identity(current_worktree, base_worktree);
    if !source_changed && !worktree_changed {
        EntryDrift::Unchanged
    } else if source_changed && !worktree_changed {
        match (base_source, current_source) {
            (None, Some(_)) => EntryDrift::SourceAdded,
            (Some(_), None) => EntryDrift::SourceDeleted,
            (Some(_), Some(_)) => EntryDrift::SourceModified,
            (None, None) => EntryDrift::Unchanged,
        }
    } else if !source_changed && worktree_changed {
        match (base_worktree, current_worktree) {
            (None, Some(_)) => EntryDrift::WorktreeAdded,
            (Some(_), None) => EntryDrift::WorktreeDeleted,
            (Some(_), Some(_)) => EntryDrift::WorktreeModified,
            (None, None) => EntryDrift::Unchanged,
        }
    } else if same_entry_identity(current_source, current_worktree) {
        EntryDrift::BothChangedIdentically
    } else {
        EntryDrift::BothChangedDifferently
    }
}

/// The drift of path `k` across the four manifests.
pub open spec fn drift_of(
    base_source: Manifest,
    base_worktree: Manifest,
    current_source: Manifest,
    current_worktree: Manifest,
    k: Seq<char>,
) -> EntryDrift {
    classify_spec(
        base_source.lookup(k),
        base_worktree.lookup(k),
        current_source.lookup(k),
        current_worktree.lookup(k),
    )
}

pub open spec fn in_any(a: Manifest, b: Manifest, c: Manifest, d: Manifest, k: Seq<char>) -> bool {
    a.has(k) || b.has(k) || c.has(k) || d.has(k)
}

/// The records built so far are correct: keys distinct, every key from one of
/// the manifests with its classified drift.
spec fn partial_report_ok(
    s: Seq<(String, EntryDrift)>,
    bs: Manifest,
    bw: Manifest,
    cs: Manifest,
    cw: Manifest,
) -> bool {
    &&& distinct_keys(s)
    &&& sorted_keys(s)
    &&& forall|k: Seq<char>| #[trigger] seq_has(s, k) ==> in_any(bs, bw, cs, cw, k)
    &&& forall|k: Seq<char>| #[trigger] seq_has(s, k) ==> seq_lookup(s, k) == Some(
        drift_of(bs, bw, cs, cw, k),
    )
}

/// Adds every path of `m` that is not yet in `out`.
fn add_paths(
    out: &mut Vec<(String, EntryDrift)>,
    m: &Manifest,
    bs: &Manifest,
    bw: &Manifest,
    cs: &Manifest,
    cw: &Manifest,
)
    requires
        partial_report_ok(old(out)@, *bs, *bw, *cs, *cw),
        m == bs || m == bw || m == cs || m == cw,
    ensures
        partial_report_ok(final(out)@, *bs, *bw, *cs, *cw),
        forall|k: Seq<char>| #[trigger] seq_has(final(out)@, k) <==> (seq_has(old(out)@, k) || m.has(k)),
{
    let n = m.len();
    let mut i: usize = 0;
    let ghost start = out@;
    while i < n
        invariant
            n == m.len_spec(),
            i <= n,
            m == bs || m == bw || m == cs || m == cw,
            partial_report_ok(out@, *bs, *bw, *cs, *cw),
            forall|k: Seq<char>| #[trigger] seq_has(out@, k) <==> (seq_has(start, k) || exists|j: int|
                0 <= j < i && m.key(j) == k),
        decreases n - i,
    {
        let path = m.path_at(i);
        let ghost before = out@;
        match find_key(out, path) {
            Some(_) => {},
            None => {
                let d = classify_entry(bs.get(path), bw.get(path), cs.get(path), cw.get(path));
                let rec = (path.to_owned(), d);
                insert_record(out, rec);
            },
        }
        proof {
            assert forall|k: Seq<char>| #[trigger] seq_has(out@, k) <==> (seq_has(start, k) || exists|j: int|
                0 <= j < i + 1 && m.key(j) == k) by {
                if k == path@ {
                    assert(m.key(i as int) == k);
                }
                if exists|j: int| 0 <= j < i + 1 && m.key(j) == k {
                    let j = choose|j: int| 0 <= j < i + 1 && m.key(j) == k;
                    if j < i {
                        assert(exists|j2: int| 0 <= j2 < i && m.key(j2) == k);
                    }
                }
            }
        }
        i = i + 1;
    }
    proof {
        assert forall|k: Seq<char>| #[trigger] seq_has(out@, k) <==> (seq_has(start, k) || m.has(k)) by {
            if m.has(k) {
                let j = choose|j: int| 0 <= j < m.records().len() && #[trigger] m.records()[j].0@ == k;
                assert(m.key(j) == k);
            }
            if exists|j: int| 0 <= j < n && m.key(j) == k {
                let j = choose|j: int| 0 <= j < n && m.key(j) == k;
                assert(m.records()[j].0@ == k);
            }
        }
    }
}

/// Some path of the four manifests changed differently on both sides.
pub open spec fn any_conflict(bs: Manifest, bw: Manifest, cs: Manifest, cw: Manifest) -> bool {
    exists|k: Seq<char>| in_any(bs, bw, cs, cw, k) && #[trigger] drift_of(bs, bw, cs, cw, k)
        == EntryDrift::BothChangedDifferently
}

/// Every path of the four manifests is unchanged or converged to identical
/// content.
pub open spec fn all_settled(bs: Manifest, bw: Manifest, cs: Manifest, cw: Manifest) -> bool {
    forall|k: Seq<char>| in_any(bs, bw, cs, cw, k) ==> #[trigger] drift_of(bs, bw, cs, cw, k)
        == EntryDrift::Unchanged || drift_of(bs, bw, cs, cw, k) == EntryDrift::BothChangedIdentically
}

/// Classifies every path recorded in any of the four manifests.
pub fn classify_manifest_drift(
    base_source: &Manifest,
    base_worktree: &Manifest,
    current_source: &Manifest,
    current_worktree: &Manifest,
) -> (report: DriftReport)
    ensures
        forall|k: Seq<char>| #[trigger] report.has(k) <==> in_any(
            *base_source,
            *base_worktree,
            *current_source,
            *current_worktree,
            k,
        ),
        forall|k: Seq<char>| #[trigger] report.has(k) ==> report.lookup(k) == Some(
            drift_of(*base_source, *base_worktree, *current_source, *current_worktree, k),
        ),
        report.conflicted() <==> any_conflict(*base_source, *base_worktree, *current_source, *current_worktree),
        report.clean_after_refresh() <==> all_settled(*base_source, *base_worktree, *current_source, *current_worktree),
        sorted_keys(report.records()),
        distinct_keys(report.records()),
{
    let mut out: Vec<(String, EntryDrift)> = Vec::new();
    add_paths(&mut out, base_source, base_source, base_worktree, current_source, current_worktree);
    add_paths(&mut out, base_worktree, base_source, base_worktree, current_source, current_worktree);
    add_paths(&mut out, current_source, base_source, base_worktree, current_source, current_worktree);
    add_paths(&mut out, current_worktree, base_source, base_worktree, current_source, current_worktree);
    let report = DriftReport { entries: out };
    proof {
        let (bs, bw, cs, cw) = (*base_source, *base_worktree, *current_source, *current_worktree);
        let s = report.records();
        assert forall|i: int| 0 <= i < s.len() implies #[trigger] report.drift_at(i) == drift_of(bs, bw, cs, cw, s[i].0@)
            && in_any(bs, bw, cs, cw, s[i].0@) by {
            lemma_seq_lookup_at(s, i);
        }
        if report.conflicted() {
            let i = choose|i: int| 0 <= i < report.len_spec() && #[trigger] report.drift_at(i)
                == EntryDrift::BothChangedDifferently;
            assert(report.drift_at(i) == drift_of(bs, bw, cs, cw, s[i].0@));
        }
        if any_conflict(bs, bw, cs, cw) {
            let k = choose|k: Seq<char>| in_any(bs, bw, cs, cw, k) && #[trigger] drift_of(bs, bw, cs, cw, k)
                == EntryDrift::BothChangedDifferently;
            assert(report.has(k));
            let i = choose|i: int| 0 <= i < s.len() && #[trigger] s[i].0@ == k;
            assert(report.drift_at(i) == drift_of(bs, bw, cs, cw, s[i].0@));
        }
        if report.clean_after_refresh() {
            assert forall|k: Seq<char>| in_any(bs, bw, cs, cw, k) implies #[trigger] drift_of(bs, bw, cs, cw, k)
                == EntryDrift::Unchanged || drift_of(bs, bw, cs, cw, k) == EntryDrift::BothChangedIdentically by {
                assert(report.has(k));
                let i = choose|i: int| 0 <= i < s.len() && #[trigger] s[i].0@ == k;
                assert(report.drift_at(i) == drift_of(bs, bw, cs, cw, s[i].0@));
            }
        }
        if all_settled(bs, bw, cs, cw) {
            assert forall|i: int| #![trigger report.drift_at(i)] 0 <= i < report.len_spec() implies report.drift_at(i)
                == EntryDrift::Unchanged || report.drift_at(i) == EntryDrift::BothChangedIdentically by {
                assert(report.drift_at(i) == drift_of(bs, bw, cs, cw, s[i].0@));
            }
        }
    }
    report
}

} // verus!
