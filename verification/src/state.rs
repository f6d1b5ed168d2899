//! Per-path, per-worktree sync state and where it is stored.
use vstd::prelude::*;

use crate::domain::ManagedPath;
use crate::drift::DriftReport;
use crate::git_repo::{WorktreeId, WorktreeInfo};
use crate::manifest::{same_records, Manifest};
use crate::pathops::{join_path, joined};
use crate::text::{cat, opt_view};

verus! {

#[derive(Clone, Copy, Debug, PartialEq, Eq, Structural)]
pub enum PairStatus {
    Uninitialized,
    Clean,
    Conflict,
}

/// What occupies a destination, as far as `wk` knows.
#[derive(Clone, Copy, Debug, PartialEq, Eq, Structural)]
pub enum DestinationKind {
    Missing,
    Copy,
    SyncCopy,
    Symlink,
    Foreign,
}

/// How a destination came to be, used to decide whether `wk` may repair it.
#[derive(Debug)]
pub struct MaterializationProvenance {
    pub destination_kind: DestinationKind,
    pub created_or_adopted_by_wk: bool,
    pub expected_symlink_target: Option<String>,
}

impl MaterializationProvenance {
    pub fn duplicate(&self) -> (p: Self)
        ensures
            p.destination_kind == self.destination_kind,
            p.created_or_adopted_by_wk == self.created_or_adopted_by_wk,
            opt_view(p.expected_symlink_target) == opt_view(self.expected_symlink_target),
    {
        MaterializationProvenance {
            destination_kind: self.destination_kind,
            created_or_adopted_by_wk: self.created_or_adopted_by_wk,
            expected_symlink_target: match &self.expected_symlink_target {
                Some(t) => Some(t.clone()),
                None => None,
            },
        }
    }
}

/// The entries left in conflict and a message about them.
#[derive(Debug)]
pub struct ConflictRecord {
    pub entries: Vec<String>,
    pub message: String,
}

/// The sync state of one managed path in one worktree: its status, its
/// provenance, the manifests of both sides at the last clean sync, and the
/// conflict when there is one.
#[derive(Debug)]
pub struct PathState {
    pub path: ManagedPath,
    pub worktree_id: WorktreeId,
    pub status: PairStatus,
    pub provenance: MaterializationProvenance,
    pub source_manifest: Option<Manifest>,
    pub worktree_manifest: Option<Manifest>,
    pub conflict: Option<ConflictRecord>,
}

impl PathState {
    /// After `wk status` classified drift: when every entry is unchanged or
    /// converged to identical content, the pair becomes clean, the conflict is
    /// cleared and the current manifests become the new base. Otherwise the
    /// state, a conflict included, is kept as it is.
    pub fn refresh_after_status(
        self,
        report: &DriftReport,
        current_source: Manifest,
        current_worktree: Manifest,
    ) -> (s: Self)
        ensures
            report.clean_after_refresh() ==> s == (PathState {
                status: PairStatus::Clean,
                conflict: None,
                source_manifest: Some(current_source),
                worktree_manifest: Some(current_worktree),
                ..self
            }),
            !report.clean_after_refresh() ==> s == self,
    {
        if report.is_clean_after_refresh() {
            PathState {
                status: PairStatus::Clean,
                conflict: None,
                source_manifest: Some(current_source),
                worktree_manifest: Some(current_worktree),
                ..self
            }
        } else {
            self
        }
    }
}

/// Where state files live: one directory per worktree identity under
/// `<control dir>/state`.
#[derive(Debug)]
pub struct StateStore {
    state_dir: String,
}

/// The file-name form of one character of a managed path: `/` becomes `+`
/// and `.` becomes `_`; a literal `+`, `_` or `%` is escaped with `%`; every
/// other character stands for itself.
pub open spec fn encode_char(c: char) -> Seq<char> {
    if c == '/' {
        seq!['+']
    } else if c == '.' {
        seq!['_']
    } else if c == '+' {
        seq!['%', '+']
    } else if c == '_' {
        seq!['%', '_']
    } else if c == '%' {
        seq!['%', '%']
    } else {
        seq![c]
    }
}

/// A managed path as a flat file stem: each character in its file-name form.
pub open spec fn encoded(s: Seq<char>) -> Seq<char>
    decreases s.len(),
{
    if s.len() == 0 {
        Seq::empty()
    } else {
        encode_char(s[0]) + encoded(s.drop_first())
    }
}

proof fn lemma_encoded_push(s: Seq<char>, c: char)
    ensures
        encoded(s.push(c)) == encoded(s) + encode_char(c),
    decreases s.len(),
{
    if s.len() == 0 {
        assert(s.push(c).drop_first() =~= Seq::<char>::empty());
        assert(s.push(c)[0] == c);
        assert(encoded(Seq::<char>::empty()) == Seq::<char>::empty());
        assert(encoded(s) == Seq::<char>::empty());
        assert(encoded(s.push(c)) =~= encode_char(c) + Seq::<char>::empty());
    } else {
        assert(s.push(c).drop_first() =~= s.drop_first().push(c));
        assert(s.push(c)[0] == s[0]);
        lemma_encoded_push(s.drop_first(), c);
        assert(encoded(s.push(c)) =~= encoded(s) + encode_char(c));
    }
}

/// Distinct paths have distinct file stems.
pub proof fn lemma_encoded_injective(a: Seq<char>, b: Seq<char>)
    requires
        encoded(a) == encoded(b),
    ensures
        a == b,
    decreases a.len(),
{
    if a.len() == 0 {
        if b.len() > 0 {
            assert(encoded(b).len() > 0);
        }
        assert(a =~= b);
    } else {
        if b.len() == 0 {
            assert(encoded(a).len() > 0);
        }
        let ea = encode_char(a[0]);
        let eb = encode_char(b[0]);
        let ta = encoded(a.drop_first());
        let tb = encoded(b.drop_first());
        assert(encoded(a) == ea + ta);
        assert(encoded(b) == eb + tb);
        assert(encoded(a)[0] == ea[0]);
        assert(encoded(b)[0] == eb[0]);
        if ea.len() == 2 {
            assert(eb.len() == 2);
            assert(encoded(a)[1] == ea[1]);
            assert(encoded(b)[1] == eb[1]);
        }
        assert(a[0] == b[0]);
        assert(ta =~= encoded(a).subrange(ea.len() as int, encoded(a).len() as int));
        assert(tb =~= encoded(b).subrange(eb.len() as int, encoded(b).len() as int));
        lemma_encoded_injective(a.drop_first(), b.drop_first());
        assert(a =~= seq![a[0]] + a.drop_first());
        assert(b =~= seq![b[0]] + b.drop_first());
    }
}

pub fn encode_path(path: &ManagedPath) -> (e: String)
    ensures
        e@ == encoded(path.view()),
{
    let s = path.as_str();
    let n = s.unicode_len();
    let mut out = String::from_str("");
    let mut i: usize = 0;
    proof {
        reveal_strlit("");
        assert(s@.take(0) =~= Seq::<char>::empty());
    }
    while i < n
        invariant
            n == s@.len(),
            i <= n,
            out@ == encoded(s@.take(i as int)),
        decreases n - i,
    {
        let c = s.get_char(i);
        proof {
            reveal_strlit("%%");
            reveal_strlit("%+");
            reveal_strlit("%_");
            reveal_strlit("+");
            reveal_strlit("_");
            assert(s@.take(i as int + 1) =~= s@.take(i as int).push(c));
            lemma_encoded_push(s@.take(i as int), c);
        }
        if c == '/' {
            out.append("+");
        } else if c == '.' {
            out.append("_");
        } else if c == '+' {
            out.append("%+");
        } else if c == '_' {
            out.append("%_");
        } else if c == '%' {
            out.append("%%");
        } else {
            let one = s.substring_char(i, i + 1);
            proof {
                assert(one@ =~= seq![c]);
            }
            out.append(one);
        }
        i = i + 1;
    }
    assert(s@.take(n as int) =~= s@);
    out
}

impl StateStore {
    pub closed spec fn dir(self) -> Seq<char> {
        self.state_dir@
    }

    pub fn new(control_dir: &str) -> (s: Self)
        ensures
            s.dir() == joined(control_dir@, "state"@),
    {
        StateStore { state_dir: join_path(control_dir, "state") }
    }

    pub fn state_dir(&self) -> (d: &str)
        ensures
            d@ == self.dir(),
    {
        self.state_dir.as_str()
    }

    /// `<state dir>/<worktree id>/<encoded path>.json`.
    pub fn state_file(&self, path: &ManagedPath, worktree_id: &WorktreeId) -> (f: String)
        ensures
            f@ == joined(joined(self.dir(), worktree_id.view()), encoded(path.view()) + ".json"@),
    {
        let dir = join_path(self.state_dir.as_str(), worktree_id.as_str());
        let name = cat(encode_path(path).as_str(), ".json");
        join_path(dir.as_str(), name.as_str())
    }

    /// State is kept only for destination worktrees, never for the source.
    pub fn keeps_state_for(worktree: &WorktreeInfo) -> (keep: bool)
        ensures
            keep <==> !worktree.is_source,
    {
        !worktree.is_source
    }
}

} // verus!
