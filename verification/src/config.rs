//! The repository configuration: which paths are managed and how.
use vstd::prelude::*;

use crate::domain::{valid_managed_path, ConflictPolicy, ManagedPath, Mode, SyncPolicy};
use crate::error::WkError;
use crate::pathops::{looks_rooted, trimmed};
use crate::text::{cat, decimal_string, decimal_text};

verus! {

/// One managed path: its mode and, for sync paths, optional policy overrides.
#[derive(Debug)]
pub struct PathConfig {
    pub path: ManagedPath,
    pub mode: Mode,
    pub sync_policy: Option<SyncPolicy>,
    pub conflict_policy: Option<ConflictPolicy>,
}

/// The configuration stored in `.wk/config.toml`.
#[derive(Debug)]
pub struct Config {
    pub version: u32,
    pub default_sync_policy: SyncPolicy,
    pub default_conflict_policy: ConflictPolicy,
    pub paths: Vec<PathConfig>,
}


/// The mode of `path` in a list of path entries: that of its first entry,
/// `ignore` when it has none.
pub open spec fn mode_in(paths: Seq<PathConfig>, p: Seq<char>) -> Mode
    decreases paths.len(),
{
    if paths.len() == 0 {
        Mode::Ignore
    } else if paths[0].path.view() == p {
        paths[0].mode
    } else {
        mode_in(paths.drop_first(), p)
    }
}

pub open spec fn configured(paths: Seq<PathConfig>, p: Seq<char>) -> bool {
    exists|i: int| 0 <= i < paths.len() && #[trigger] paths[i].path.view() == p
}

impl PathConfig {
    pub fn duplicate(&self) -> (c: Self)
        ensures
            c.path.view() == self.path.view(),
            c.mode == self.mode,
            c.sync_policy == self.sync_policy,
            c.conflict_policy == self.conflict_policy,
    {
        PathConfig {
            path: self.path.clone(),
            mode: self.mode,
            sync_policy: self.sync_policy,
            conflict_policy: self.conflict_policy,
        }
    }
}

impl Config {
    /// A configuration is valid when its version is 1 and every path still
    /// parses as a managed path. Paths that the platform may read as absolute
    /// (a `\\` start or a drive prefix) are left to it.
    pub fn validate(&self) -> (res: Result<(), WkError>)
        ensures
            self.version != 1 ==> (res matches Err(WkError::Message(m)) && m@
                == "unsupported config version: "@ + decimal_text(self.version as nat)),
            self.version == 1 && (forall|i: int| 0 <= i < self.paths@.len() ==> !looks_rooted(
                #[trigger] self.paths@[i].path.view(),
            )) ==> res is Ok,
            res is Ok ==> self.version == 1,
    {
        if self.version != 1 {
            return Err(WkError::message(cat("unsupported config version: ", decimal_string(self.version as u128).as_str())));
        }
        let mut i: usize = 0;
        while i < self.paths.len()
            invariant
                self.version == 1,
                i <= self.paths@.len(),
            decreases self.paths@.len() - i,
        {
            let p = self.paths[i].path.as_str();
            match ManagedPath::parse(p) {
                Ok(_) => {},
                Err(e) => {
                    proof {
                        assert(looks_rooted(self.paths@[i as int].path.view()));
                    }
                    return Err(e);
                },
            }
            i = i + 1;
        }
        Ok(())
    }

    /// The mode configured for `path`, `ignore` when it is not configured.
    pub fn current_mode(&self, path: &ManagedPath) -> (m: Mode)
        ensures
            m == mode_in(self.paths@, path.view()),
    {
        let mut i: usize = 0;
        assert(self.paths@.skip(0) =~= self.paths@);
        while i < self.paths.len()
            invariant
                i <= self.paths@.len(),
                forall|j: int| 0 <= j < i ==> self.paths@[j].path.view() != path.view(),
                mode_in(self.paths@, path.view()) == mode_in(self.paths@.skip(i as int), path.view()),
            decreases self.paths@.len() - i,
        {
            proof {
                assert(self.paths@.skip(i as int).drop_first() =~= self.paths@.skip(i as int + 1));
            }
            if self.paths[i].path.same_as(path) {
                return self.paths[i].mode;
            }
            i = i + 1;
        }
        proof {
            assert(self.paths@.skip(i as int) =~= Seq::<PathConfig>::empty());
        }
        Mode::Ignore
    }

    /// Whether `path` has an entry.
    pub fn has_path(&self, path: &ManagedPath) -> (b: bool)
        ensures
            b <==> configured(self.paths@, path.view()),
    {
        let mut i: usize = 0;
        while i < self.paths.len()
            invariant
                i <= self.paths@.len(),
                forall|j: int| 0 <= j < i ==> self.paths@[j].path.view() != path.view(),
            decreases self.paths@.len() - i,
        {
            if self.paths[i].path.same_as(path) {
                return true;
            }
            i = i + 1;
        }
        false
    }

    /// Sets the entry of `path` (the first one, if several) to the given
    /// mode and policies, or appends a new entry.
    pub fn upsert(
        &mut self,
        path: ManagedPath,
        mode: Mode,
        sync_policy: Option<SyncPolicy>,
        conflict_policy: Option<ConflictPolicy>,
    )
        ensures
            final(self).version == old(self).version,
            final(self).default_sync_policy == old(self).default_sync_policy,
            final(self).default_conflict_policy == old(self).default_conflict_policy,
            forall|i: int| 0 <= i < old(self).paths@.len() && #[trigger] old(self).paths@[i].path.view() == path.view()
                && (forall|j: int| 0 <= j < i ==> old(self).paths@[j].path.view() != path.view()) ==> {
                &&& final(self).paths@.len() == old(self).paths@.len()
                &&& forall|j: int| 0 <= j < old(self).paths@.len() && j != i ==> final(self).paths@[j] == old(self).paths@[j]
                &&& final(self).paths@[i].path.view() == old(self).paths@[i].path.view()
                &&& final(self).paths@[i].mode == mode
                &&& final(self).paths@[i].sync_policy == sync_policy
                &&& final(self).paths@[i].conflict_policy == conflict_policy
            },
            !configured(old(self).paths@, path.view()) ==> final(self).paths@ == old(self).paths@.push(
                PathConfig { path, mode, sync_policy, conflict_policy },
            ),
            mode_in(final(self).paths@, path.view()) == mode,
    {
        let mut i: usize = 0;
        while i < self.paths.len()
            invariant
                i <= self.paths@.len(),
                self.paths@ == old(self).paths@,
                self.version == old(self).version,
                self.default_sync_policy == old(self).default_sync_policy,
                self.default_conflict_policy == old(self).default_conflict_policy,
                forall|j: int| 0 <= j < i ==> self.paths@[j].path.view() != path.view(),
            decreases self.paths@.len() - i,
        {
            if self.paths[i].path.same_as(&path) {
                let existing_path = self.paths[i].path.clone();
                let ghost old_entry = self.paths@[i as int];
                self.paths.set(i, PathConfig { path: existing_path, mode, sync_policy, conflict_policy });
                proof {
                    lemma_mode_in_first(self.paths@, path.view(), i as int);
                    assert(old(self).paths@[i as int].path.view() == path.view());
                    assert forall|i2: int| 0 <= i2 < old(self).paths@.len() && #[trigger] old(self).paths@[i2].path.view()
                        == path.view() && (forall|j: int| 0 <= j < i2 ==> old(self).paths@[j].path.view() != path.view())
                        implies i2 == i by {
                        if i2 > i {
                            assert(old(self).paths@[i as int].path.view() != path.view());
                        }
                    }
                }
                return;
            }
            i = i + 1;
        }
        let ghost before = self.paths@;
        let ghost pv = path.view();
        self.paths.push(PathConfig { path, mode, sync_policy, conflict_policy });
        proof {
            lemma_mode_in_pushed(before, self.paths@[before.len() as int]);
        }
    }
}

/// The mode of a path is that of its first entry.
pub proof fn lemma_mode_in_first(paths: Seq<PathConfig>, p: Seq<char>, i: int)
    requires
        0 <= i < paths.len(),
        paths[i].path.view() == p,
        forall|j: int| 0 <= j < i ==> paths[j].path.view() != p,
    ensures
        mode_in(paths, p) == paths[i].mode,
    decreases i,
{
    if i > 0 {
        let rest = paths.drop_first();
        assert forall|j: int| 0 <= j < i - 1 implies rest[j].path.view() != p by {
            assert(rest[j] == paths[j + 1]);
        }
        lemma_mode_in_first(rest, p, i - 1);
    }
}

/// Appending an entry for a path that had none gives the path that entry's
/// mode.
pub proof fn lemma_mode_in_pushed(paths: Seq<PathConfig>, pc: PathConfig)
    requires
        !configured(paths, pc.path.view()),
    ensures
        mode_in(paths.push(pc), pc.path.view()) == pc.mode,
{
    let all = paths.push(pc);
    assert forall|j: int| 0 <= j < paths.len() implies all[j].path.view() != pc.path.view() by {
        assert(all[j] == paths[j]);
    }
    lemma_mode_in_first(all, pc.path.view(), paths.len() as int);
}

/// The configuration `init` starts from: version 1, manual sync, ask on
/// conflicts, no paths.
pub fn default_config() -> (c: Config)
    ensures
        c.version == 1,
        c.default_sync_policy == SyncPolicy::Manual,
        c.default_conflict_policy == ConflictPolicy::Ask,
        c.paths@.len() == 0,
{
    Config {
        version: 1,
        default_sync_policy: SyncPolicy::Manual,
        default_conflict_policy: ConflictPolicy::Ask,
        paths: Vec::new(),
    }
}

/// A path's sync policy, or the configuration's default.
pub fn effective_sync_policy(config: &Config, path_config: &PathConfig) -> (p: SyncPolicy)
    ensures
        p == match path_config.sync_policy {
            Some(x) => x,
            None => config.default_sync_policy,
        },
{
    match path_config.sync_policy {
        Some(x) => x,
        None => config.default_sync_policy,
    }
}

/// A path's conflict policy, or the configuration's default.
pub fn effective_conflict_policy(config: &Config, path_config: &PathConfig) -> (p: ConflictPolicy)
    ensures
        p == match path_config.conflict_policy {
            Some(x) => x,
            None => config.default_conflict_policy,
        },
{
    match path_config.conflict_policy {
        Some(x) => x,
        None => config.default_conflict_policy,
    }
}

} // verus!
