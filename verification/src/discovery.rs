//! Which paths `wk init` and `wk add` offer to manage: the default
//! candidates, an explicit path, or the entries of the source worktree that
//! a glob matches. Whether git ignores a path, and which entries the source
//! worktree holds, are observed outside the library and handed in.
use vstd::prelude::*;

use crate::domain::{split_on_slash, valid_managed_path, ManagedPath};
use crate::error::WkError;
use crate::pathops::{file_name, file_name_of, looks_rooted};
use crate::text::{cat, cat3, lemma_text_order, signed_decimal_string, signed_decimal_text, text_less, text_less_exec};

verus! {

#[derive(Clone, Copy, Debug, PartialEq, Eq, Structural)]
pub struct DiscoveryOptions {
    pub include_defaults: bool,
    pub force: bool,
}

/// How a path came to be offered.
#[derive(Clone, Copy, Debug, PartialEq, Eq, Structural)]
pub enum DiscoverySource {
    Heuristic,
    Explicit,
    Glob,
}

/// A path offered for management: whether git ignores it, and whether it is
/// managed only because `--force` was given.
#[derive(Debug)]
pub struct DiscoveredPath {
    pub path: ManagedPath,
    pub source: DiscoverySource,
    pub ignored: bool,
    pub forced: bool,
}

/// The default candidates, in path order.
pub open spec fn default_candidate_list() -> Seq<Seq<char>> {
    seq![
        ".codex"@,
        ".continue"@,
        ".cursor"@,
        "AGENTS.local.md"@,
        "CODEX.local.md"@,
        "GEMINI.local.md"@,
        "docs/local"@,
    ]
}

/// The well-known AI and local files `wk init` looks for, in path order.
pub fn default_candidates() -> (c: Vec<&'static str>)
    ensures
        c@.map_values(|s: &str| s@) == default_candidate_list(),
{
    let c = vec![
        ".codex",
        ".continue",
        ".cursor",
        "AGENTS.local.md",
        "CODEX.local.md",
        "GEMINI.local.md",
        "docs/local",
    ];
    assert(c@.map_values(|s: &str| s@) =~= default_candidate_list());
    c
}

/// Whether a path may be offered: ignored paths always; others only with
/// `force`, and an explicit request for an unignored path is an error.
pub fn discover_path(
    path: ManagedPath,
    source: DiscoverySource,
    force: bool,
    reject_unignored: bool,
    ignored: bool,
) -> (r: Result<Option<DiscoveredPath>, WkError>)
    ensures
        r is Err <==> !ignored && !force && reject_unignored,
        r matches Ok(None) ==> !ignored && !force,
        r matches Ok(Some(d)) ==> (ignored || force) && d.path.view() == path.view() && d.source == source
            && d.ignored == ignored && d.forced == (force && !ignored),
        (ignored || force) ==> r matches Ok(Some(_)),
        r matches Err(e) ==> (e matches WkError::Message(m) && m@ == "path is not ignored by git: "@ + path.view()),
{
    if !ignored && !force {
        if reject_unignored {
            return Err(WkError::message(cat("path is not ignored by git: ", path.as_str())));
        }
        return Ok(None);
    }
    Ok(Some(DiscoveredPath { path, source, ignored, forced: force && !ignored }))
}

/// A path may be managed when git ignores it or `force` is given.
pub fn ensure_manageable_ignored(path: &ManagedPath, force: bool, ignored: bool) -> (r: Result<(), WkError>)
    ensures
        r is Ok <==> ignored || force,
        r matches Err(e) ==> (e matches WkError::Message(m) && m@ == "path is not ignored by git: "@ + path.view()),
{
    if ignored || force {
        return Ok(());
    }
    Err(WkError::message(cat("path is not ignored by git: ", path.as_str())))
}


/// Reads the exit status of `git check-ignore -q`: 0 means ignored, 1 means
/// not ignored, anything else (or a signal, `None`) is an error.
pub fn check_ignore_outcome(path: &ManagedPath, code: Option<i32>) -> (r: Result<bool, WkError>)
    ensures
        code == Some(0i32) ==> r matches Ok(true),
        code == Some(1i32) ==> r matches Ok(false),
        !(code == Some(0i32) || code == Some(1i32)) ==> r is Err,
        match code {
            Some(c) => c != 0 && c != 1 ==> (r matches Err(WkError::Message(m)) && m@
                == "git check-ignore failed with exit code "@ + signed_decimal_text(c as int) + " for "@ + path.view()),
            None => true,
        },
        code is None ==> (r matches Err(WkError::Message(m)) && m@ == "git check-ignore terminated by signal for "@
            + path.view()),
{
    match code {
        Some(0) => Ok(true),
        Some(1) => Ok(false),
        Some(c) => Err(
            WkError::message(
                cat3(
                    cat("git check-ignore failed with exit code ", signed_decimal_string(c).as_str()).as_str(),
                    " for ",
                    path.as_str(),
                ),
            ),
        ),
        None => Err(WkError::message(cat("git check-ignore terminated by signal for ", path.as_str()))),
    }
}

/// A default candidate that exists in the source worktree, with whether git
/// ignores it.
#[derive(Debug)]
pub struct CandidateObservation {
    pub exists: bool,
    pub ignored: bool,
}

/// The candidates `wk init` offers: with defaults included, every default
/// candidate that exists in the source worktree and is ignored (or forced),
/// in path order. `observations` holds one observation per default
/// candidate, in order.
pub fn discover_candidates(options: DiscoveryOptions, observations: &Vec<CandidateObservation>) -> (r: Result<
    Vec<DiscoveredPath>,
    WkError,
>)
    ensures
        !options.include_defaults ==> (r matches Ok(v) && v@.len() == 0),
        options.include_defaults && observations@.len() != default_candidate_list().len() ==> r is Err,
        r is Ok && options.include_defaults ==> observations@.len() == default_candidate_list().len(),
        r matches Ok(v) ==> options.include_defaults ==> v@.map_values(|d: DiscoveredPath| d.path.view())
            == offered(default_candidate_list(), observations@, options.force, 0),
        r matches Ok(v) ==> forall|i: int| 0 <= i < v@.len() ==> (#[trigger] v@[i]).source
            == DiscoverySource::Heuristic && v@[i].forced == (options.force && !v@[i].ignored),
        r matches Ok(v) ==> forall|i: int| 0 <= i < v@.len() ==> (#[trigger] v@[i]).ignored || options.force,
{
    let mut found: Vec<DiscoveredPath> = Vec::new();
    if !options.include_defaults {
        return Ok(found);
    }
    let candidates = default_candidates();
    if observations.len() != candidates.len() {
        return Err(WkError::message(String::from_str("candidate observations do not match the default candidates")));
    }
    let ghost names = default_candidate_list();
    let mut i: usize = candidates.len();
    while i > 0
        invariant
            i <= candidates@.len(),
            options.include_defaults,
            candidates@.map_values(|s: &str| s@) == names,
            names == default_candidate_list(),
            observations@.len() == names.len(),
            found@.map_values(|d: DiscoveredPath| d.path.view()) == offered(names, observations@, options.force, i as int),
            forall|j: int| 0 <= j < found@.len() ==> (#[trigger] found@[j]).source == DiscoverySource::Heuristic
                && found@[j].forced == (options.force && !found@[j].ignored),
            forall|j: int| 0 <= j < found@.len() ==> (#[trigger] found@[j]).ignored || options.force,
        decreases i,
    {
        i = i - 1;
        let obs = &observations[i];
        let ghost before = found@;
        if obs.exists {
            proof {
                assert(candidates@[i as int]@ == names[i as int]);
                lemma_default_candidates_printable(i as int);
            }
            let name = crate::pathops::trim_str(candidates[i]);
            let path = match ManagedPath::parse(name.as_str()) {
                Ok(p) => p,
                Err(err) => {
                    return Err(err);
                },
            };
            match discover_path(path, DiscoverySource::Heuristic, options.force, false, obs.ignored) {
                Ok(Some(d)) => {
                    found.insert(0, d);
                },
                _ => {},
            }
        }
        proof {
            assert(found@.map_values(|d: DiscoveredPath| d.path.view()) =~= offered(
                names,
                observations@,
                options.force,
                i as int,
            ));
            assert forall|j: int| 0 <= j < found@.len() implies (#[trigger] found@[j]).source == DiscoverySource::Heuristic
                && found@[j].forced == (options.force && !found@[j].ignored) && (found@[j].ignored || options.force) by {
                if found@.len() > before.len() && j > 0 {
                    assert(found@[j] == before[j - 1]);
                }
            }
        }
    }
    Ok(found)
}

/// The candidates from position `from` on that exist and are ignored (or
/// forced).
pub open spec fn offered(names: Seq<Seq<char>>, obs: Seq<CandidateObservation>, force: bool, from: int) -> Seq<Seq<char>>
    decreases names.len() - from,
{
    if from < 0 || from >= names.len() {
        Seq::empty()
    } else {
        (if obs[from].exists && (obs[from].ignored || force) {
            seq![names[from]]
        } else {
            Seq::empty()
        }) + offered(names, obs, force, from + 1)
    }
}

proof fn lemma_default_candidates_printable(i: int)
    requires
        0 <= i < default_candidate_list().len(),
    ensures
        forall|k: int| 0 <= k < default_candidate_list()[i].len() ==> '!' <= #[trigger] default_candidate_list()[i][k] <= '~',
{
    reveal_strlit(".codex");
    reveal_strlit(".continue");
    reveal_strlit(".cursor");
    reveal_strlit("AGENTS.local.md");
    reveal_strlit("CODEX.local.md");
    reveal_strlit("GEMINI.local.md");
    reveal_strlit("docs/local");
}


/// Every element is below every later one.
pub open spec fn strictly_sorted(v: Seq<Seq<char>>) -> bool {
    forall|i: int, j: int| 0 <= i < j < v.len() ==> text_less(#[trigger] v[i], #[trigger] v[j])
}

/// Whether `globset` accepts a pattern: `Glob::new` parses it and a set of
/// it builds.
pub uninterp spec fn glob_valid(pattern: Seq<char>) -> bool;

/// Parses `pattern` with `globset::Glob::new` and builds a
/// `globset::GlobSet` of it; an error carries globset's message.
#[verifier::external_body]
fn check_glob(pattern: &str) -> (r: Result<(), String>)
    ensures
        r is Ok <==> glob_valid(pattern@),
{
    match globset::Glob::new(pattern) {
        Ok(glob) => {
            let mut builder = globset::GlobSetBuilder::new();
            builder.add(glob);
            match builder.build() {
                Ok(_) => Ok(()),
                Err(e) => Err(e.to_string()),
            }
        },
        Err(e) => Err(e.to_string()),
    }
}

/// Whether the glob set built from `pattern` matches `candidate`.
pub uninterp spec fn glob_match(pattern: Seq<char>, candidate: Seq<char>) -> bool;

/// Builds the `globset::GlobSet` of a valid pattern and calls its
/// `is_match` on `candidate`; the result is what `glob_match` names.
#[verifier::external_body]
fn glob_is_match(pattern: &str, candidate: &str) -> (b: bool)
    requires
        glob_valid(pattern@),
    ensures
        b == glob_match(pattern@, candidate@),
{
    let mut builder = globset::GlobSetBuilder::new();
    if let Ok(glob) = globset::Glob::new(pattern) {
        builder.add(glob);
    }
    match builder.build() {
        Ok(set) => set.is_match(candidate),
        Err(_) => false,
    }
}

pub open spec fn has_slash(s: Seq<char>) -> bool {
    exists|i: int| 0 <= i < s.len() && s[i] == '/'
}

fn has_slash_exec(s: &str) -> (b: bool)
    ensures
        b == has_slash(s@),
{
    let n = s.unicode_len();
    let mut i: usize = 0;
    while i < n
        invariant
            n == s@.len(),
            i <= n,
            forall|k: int| 0 <= k < i ==> s@[k] != '/',
        decreases n - i,
    {
        if s.get_char(i) == '/' {
            return true;
        }
        i = i + 1;
    }
    false
}

/// An entry inside `.git` or `.wk` is never offered.
pub open spec fn is_reserved(rel: Seq<char>) -> bool {
    split_on_slash(rel).contains(".git"@) || split_on_slash(rel).contains(".wk"@)
}

pub fn is_reserved_exec(rel: &str) -> (b: bool)
    ensures
        b == is_reserved(rel@),
{
    crate::domain::has_segment(rel, ".git") || crate::domain::has_segment(rel, ".wk")
}

/// A pattern with a `/` is matched against the whole relative path, one
/// without against the file name.
pub open spec fn glob_selects(pattern: Seq<char>, rel: Seq<char>) -> bool {
    if has_slash(pattern) {
        glob_match(pattern, rel)
    } else {
        file_name_of(rel) matches Some(name) && glob_match(pattern, name)
    }
}

/// A source-worktree entry a glob offers: not the root, not reserved, and
/// selected by the pattern.
pub open spec fn glob_accepts(pattern: Seq<char>, rel: Seq<char>) -> bool {
    rel.len() > 0 && !is_reserved(rel) && glob_selects(pattern, rel)
}

fn glob_selects_exec(pattern: &str, rel: &str) -> (b: bool)
    requires
        glob_valid(pattern@),
    ensures
        b == glob_selects(pattern@, rel@),
{
    if has_slash_exec(pattern) {
        return glob_is_match(pattern, rel);
    }
    match file_name(rel) {
        Some(name) => glob_is_match(pattern, name.as_str()),
        None => false,
    }
}

/// Some element of `v` is the path `k`.
pub open spec fn holds_path(v: Seq<ManagedPath>, k: Seq<char>) -> bool {
    exists|j: int| 0 <= j < v.len() && #[trigger] v[j].view() == k
}

/// Inserts `p` into a sorted list unless an equal path is already there.
fn insert_sorted(v: &mut Vec<ManagedPath>, p: ManagedPath)
    requires
        strictly_sorted(old(v)@.map_values(|q: ManagedPath| q.view())),
    ensures
        strictly_sorted(final(v)@.map_values(|q: ManagedPath| q.view())),
        forall|k: Seq<char>| #[trigger] holds_path(final(v)@, k) <==> (k == p.view() || holds_path(old(v)@, k)),
{
    let ghost before = v@.map_values(|q: ManagedPath| q.view());
    let mut k: usize = 0;
    while k < v.len() && text_less_exec(v[k].as_str(), p.as_str())
        invariant
            k <= v@.len(),
            v@.map_values(|q: ManagedPath| q.view()) == before,
            forall|i: int| 0 <= i < k ==> text_less(before[i], p.view()),
        decreases v@.len() - k,
    {
        k = k + 1;
    }
    if k < v.len() && v[k].same_as(&p) {
        proof {
            assert forall|key: Seq<char>| #[trigger] holds_path(v@, key) <==> (key == p.view() || holds_path(v@, key)) by {
                if key == p.view() {
                    assert(v@[k as int].view() == key);
                }
            }
        }
        return;
    }
    let ghost x = p.view();
    v.insert(k, p);
    proof {
        let after = v@.map_values(|q: ManagedPath| q.view());
        assert(after =~= before.insert(k as int, x));
        if k < before.len() {
            lemma_text_order(before[k as int], x, x);
            assert(text_less(x, before[k as int]));
        }
        assert forall|i: int, j: int| 0 <= i < j < after.len() implies text_less(#[trigger] after[i], #[trigger] after[j]) by {
            if j < k {
                assert(after[i] == before[i] && after[j] == before[j]);
            } else if j == k {
                assert(after[i] == before[i]);
            } else if i < k {
                assert(after[i] == before[i] && after[j] == before[j - 1]);
                if j - 1 > k {
                    assert(text_less(before[k as int], before[j - 1]));
                    lemma_text_order(x, before[k as int], before[j - 1]);
                }
                lemma_text_order(before[i], x, before[j - 1]);
            } else if i == k {
                assert(after[j] == before[j - 1]);
                if j - 1 > k {
                    assert(text_less(before[k as int], before[j - 1]));
                    lemma_text_order(x, before[k as int], before[j - 1]);
                }
            } else {
                assert(after[i] == before[i - 1] && after[j] == before[j - 1]);
            }
        }
        assert forall|key: Seq<char>| #[trigger] holds_path(v@, key) <==> (key == x || holds_path(old(v)@, key)) by {
            if holds_path(v@, key) {
                let j = choose|j: int| 0 <= j < v@.len() && #[trigger] v@[j].view() == key;
                if j < k {
                    assert(old(v)@[j].view() == key);
                } else if j > k {
                    assert(old(v)@[j - 1].view() == key);
                }
            }
            if key == x {
                assert(v@[k as int].view() == key);
            }
            if holds_path(old(v)@, key) {
                let j = choose|j: int| 0 <= j < old(v)@.len() && #[trigger] old(v)@[j].view() == key;
                if j < k {
                    assert(v@[j].view() == key);
                } else {
                    assert(v@[j + 1].view() == key);
                }
            }
        }
    }
}

/// Some entry before position `upto` is accepted and reads as path `key`.
pub open spec fn offered_by(pattern: Seq<char>, relatives: Seq<String>, upto: int, key: Seq<char>) -> bool {
    exists|k: int| 0 <= k < upto && glob_accepts(pattern, relatives[k]@) && #[trigger] crate::pathops::trimmed(
        relatives[k]@,
    ) == key
}

/// The paths a glob offers from the entries of the source worktree
/// (`relatives`, relative to it): each accepted entry read as a managed path,
/// once, in path order. Fails on an invalid pattern or an accepted entry
/// that is not a valid managed path.
pub fn glob_candidates(pattern: &str, relatives: &Vec<String>) -> (r: Result<Vec<ManagedPath>, WkError>)
    ensures
        !glob_valid(pattern@) ==> r is Err,
        r is Ok ==> forall|i: int| 0 <= i < relatives@.len() && glob_accepts(pattern@, #[trigger] relatives@[i]@)
            ==> valid_managed_path(crate::pathops::trimmed(relatives@[i]@)),
        glob_valid(pattern@) && (forall|i: int| 0 <= i < relatives@.len() && glob_accepts(pattern@, #[trigger] relatives@[i]@)
            ==> valid_managed_path(crate::pathops::trimmed(relatives@[i]@)) && !looks_rooted(crate::pathops::trimmed(relatives@[i]@)))
            ==> r is Ok,
        r matches Ok(paths) ==> {
            &&& strictly_sorted(paths@.map_values(|q: ManagedPath| q.view()))
            &&& forall|j: int| 0 <= j < paths@.len() ==> offered_by(
                pattern@,
                relatives@,
                relatives@.len() as int,
                #[trigger] paths@[j].view(),
            )
            &&& forall|i: int| 0 <= i < relatives@.len() && glob_accepts(pattern@, #[trigger] relatives@[i]@) ==> holds_path(
                paths@,
                crate::pathops::trimmed(relatives@[i]@),
            )
        },
{
    match check_glob(pattern) {
        Ok(()) => {},
        Err(e) => {
            return Err(WkError::message(e));
        },
    }
    let mut paths: Vec<ManagedPath> = Vec::new();
    let mut i: usize = 0;
    while i < relatives.len()
        invariant
            i <= relatives@.len(),
            glob_valid(pattern@),
            strictly_sorted(paths@.map_values(|q: ManagedPath| q.view())),
            forall|j: int| 0 <= j < paths@.len() ==> offered_by(pattern@, relatives@, i as int, #[trigger] paths@[j].view()),
            forall|k: int| 0 <= k < i && glob_accepts(pattern@, #[trigger] relatives@[k]@) ==> holds_path(
                paths@,
                crate::pathops::trimmed(relatives@[k]@),
            ),
            forall|k: int| 0 <= k < i && glob_accepts(pattern@, #[trigger] relatives@[k]@)
                ==> valid_managed_path(crate::pathops::trimmed(relatives@[k]@)),
        decreases relatives@.len() - i,
    {
        let rel = relatives[i].as_str();
        let ghost old_paths = paths@;
        proof {
            assert forall|key: Seq<char>| offered_by(pattern@, relatives@, i as int, key) implies offered_by(
                pattern@,
                relatives@,
                i as int + 1,
                key,
            ) by {
                let k = choose|k: int| 0 <= k < i && glob_accepts(pattern@, relatives@[k]@) && #[trigger] crate::pathops::trimmed(
                    relatives@[k]@,
                ) == key;
                assert(0 <= k < i + 1);
            }
        }
        if rel.unicode_len() > 0 && !is_reserved_exec(rel) && glob_selects_exec(pattern, rel) {
            proof {
                assert(glob_accepts(pattern@, relatives@[i as int]@));
            }
            let path = match ManagedPath::parse(rel) {
                Ok(p) => p,
                Err(err) => {
                    return Err(err);
                },
            };
            let ghost pv = path.view();
            insert_sorted(&mut paths, path);
            proof {
                assert(offered_by(pattern@, relatives@, i as int + 1, pv)) by {
                    assert(glob_accepts(pattern@, relatives@[i as int]@));
                    assert(crate::pathops::trimmed(relatives@[i as int]@) == pv);
                }
                assert forall|j: int| 0 <= j < paths@.len() implies offered_by(
                    pattern@,
                    relatives@,
                    i as int + 1,
                    #[trigger] paths@[j].view(),
                ) by {
                    let key = paths@[j].view();
                    assert(holds_path(paths@, key));
                    if key != pv {
                        let jj = choose|jj: int| 0 <= jj < old_paths.len() && #[trigger] old_paths[jj].view() == key;
                        assert(offered_by(pattern@, relatives@, i as int, old_paths[jj].view()));
                    }
                }
                assert forall|k: int| 0 <= k < i + 1 && glob_accepts(pattern@, #[trigger] relatives@[k]@) implies holds_path(
                    paths@,
                    crate::pathops::trimmed(relatives@[k]@),
                ) by {
                    let key = crate::pathops::trimmed(relatives@[k]@);
                    if k < i {
                        assert(holds_path(old_paths, key));
                    }
                }
            }
        }
        i = i + 1;
    }
    Ok(paths)
}

/// The path `wk add` offers for a concrete (non-glob) input.
pub fn explicit_path(input: &str, force: bool, ignored: bool) -> (r: Result<Option<DiscoveredPath>, WkError>)
    ensures
        r matches Ok(Some(d)) ==> d.path.view() == crate::pathops::trimmed(input@) && d.source
            == DiscoverySource::Explicit && d.ignored == ignored && d.forced == (force && !ignored),
        r matches Ok(None) ==> false,
        r is Ok ==> ignored || force,
        r is Ok ==> valid_managed_path(crate::pathops::trimmed(input@)),
        (ignored || force) && valid_managed_path(crate::pathops::trimmed(input@)) && !looks_rooted(
            crate::pathops::trimmed(input@),
        ) ==> r is Ok,
{
    let path = match ManagedPath::parse(input) {
        Ok(p) => p,
        Err(err) => {
            return Err(err);
        },
    };
    discover_path(path, DiscoverySource::Explicit, force, true, ignored)
}

} // verus!
