//! Modes, policies and the validated repository-relative path type.
use vstd::prelude::*;

use crate::error::WkError;
use crate::pathops::{looks_rooted, path_is_absolute, trim_str, trimmed};

verus! {

/// How a managed path is materialized in linked worktrees.
#[derive(Clone, Copy, Debug, PartialEq, Eq, Structural)]
pub enum Mode {
    Ignore,
    Link,
    Copy,
    Sync,
}

/// When sync-mode paths are synchronized.
#[derive(Clone, Copy, Debug, PartialEq, Eq, Structural)]
pub enum SyncPolicy {
    Manual,
    Auto,
}

/// How a sync entry that changed differently on both sides is resolved.
#[derive(Clone, Copy, Debug, PartialEq, Eq, Structural)]
pub enum ConflictPolicy {
    Ask,
    Source,
    Worktree,
    Newer,
}

impl ConflictPolicy {
    /// Only the mtime-based `newer` policy is unsafe and warned about.
    pub fn requires_warning(self) -> (warn: bool)
        ensures
            warn <==> self == ConflictPolicy::Newer,
    {
        matches!(self, ConflictPolicy::Newer)
    }
}

/// Why a string is not a managed path, in the order the checks are made.
#[derive(Clone, Copy, Debug, PartialEq, Eq, Structural)]
pub enum PathRejection {
    Empty,
    Glob,
    Absolute,
    NotNormalized,
    ParentTraversal,
    Reserved,
}

pub open spec fn is_glob_meta(c: char) -> bool {
    c == '*' || c == '?' || c == '[' || c == ']'
}

pub open spec fn has_glob_meta_spec(s: Seq<char>) -> bool {
    exists|i: int| 0 <= i < s.len() && is_glob_meta(#[trigger] s[i])
}

/// `s.split('/')`: the pieces between slashes, empty pieces included.
pub open spec fn split_on_slash(s: Seq<char>) -> Seq<Seq<char>>
    decreases s.len(),
{
    if s.len() == 0 {
        seq![Seq::<char>::empty()]
    } else {
        let prev = split_on_slash(s.drop_last());
        if s.last() == '/' {
            prev.push(Seq::<char>::empty())
        } else {
            prev.update(prev.len() - 1, prev.last().push(s.last()))
        }
    }
}

/// The rejection that a single segment earns, if any.
pub open spec fn segment_rejection(seg: Seq<char>) -> Option<PathRejection> {
    if seg.len() == 0 || seg == "."@ {
        Some(PathRejection::NotNormalized)
    } else if seg == ".."@ {
        Some(PathRejection::ParentTraversal)
    } else if seg == ".git"@ || seg == ".wk"@ {
        Some(PathRejection::Reserved)
    } else {
        None
    }
}

/// The rejection of the first segment that earns one.
pub open spec fn first_segment_rejection(segs: Seq<Seq<char>>) -> Option<PathRejection>
    decreases segs.len(),
{
    if segs.len() == 0 {
        None
    } else {
        match first_segment_rejection(segs.drop_last()) {
            Some(r) => Some(r),
            None => segment_rejection(segs.last()),
        }
    }
}

/// The verdict on an already trimmed candidate, given whether the platform
/// considers it absolute.
pub open spec fn path_rejection(s: Seq<char>, absolute: bool) -> Option<PathRejection> {
    if s.len() == 0 {
        Some(PathRejection::Empty)
    } else if has_glob_meta_spec(s) {
        Some(PathRejection::Glob)
    } else if absolute {
        Some(PathRejection::Absolute)
    } else {
        first_segment_rejection(split_on_slash(s))
    }
}

/// A concrete, normalized, repository-relative path outside `.git` and `.wk`.
pub open spec fn valid_managed_path(s: Seq<char>) -> bool {
    path_rejection(s, false) is None
}

pub open spec fn rejection_reason(r: PathRejection) -> Seq<char> {
    match r {
        PathRejection::Empty => "path cannot be empty"@,
        PathRejection::Glob => "persisted paths must be concrete, not globs"@,
        PathRejection::Absolute => "path must be repository-relative"@,
        PathRejection::NotNormalized => "path must be normalized"@,
        PathRejection::ParentTraversal => "path must not contain parent traversal"@,
        PathRejection::Reserved => "nested .git and .wk paths are not managed"@,
    }
}

/// The outcome of validating `s` when the platform answers `absolute`.
pub open spec fn validation_outcome(s: Seq<char>, absolute: bool, res: Result<(), WkError>) -> bool {
    match path_rejection(s, absolute) {
        None => res is Ok,
        Some(r) => res matches Err(WkError::InvalidManagedPath { input, reason })
            && input@ == s && reason@ == rejection_reason(r),
    }
}

/// What `ManagedPath::parse` returns for the trimmed input `s` when the
/// platform answers `absolute`.
pub open spec fn parse_outcome(s: Seq<char>, absolute: bool, res: Result<ManagedPath, WkError>) -> bool {
    match res {
        Ok(p) => path_rejection(s, absolute) is None && p.view() == s,
        Err(e) => validation_outcome(s, absolute, Err(e)),
    }
}

/// A repository-relative managed path. It is always valid: concrete (no glob
/// characters), normalized, without `..`, and outside `.git` and `.wk`.
#[derive(Debug, Eq, Hash, PartialOrd, Ord)]
pub struct ManagedPath(String);

impl ManagedPath {
    #[verifier::type_invariant]
    closed spec fn inv(self) -> bool {
        valid_managed_path(self.0@) && trimmed(self.0@) == self.0@
    }

    pub closed spec fn view(self) -> Seq<char> {
        self.0@
    }

    /// Trims the input and validates it. Accepts exactly the valid paths,
    /// except that a trimmed input that looks rooted may also be refused as
    /// absolute, as the platform decides.
    pub fn parse(input: &str) -> (res: Result<Self, WkError>)
        ensures
            parse_outcome(trimmed(input@), false, res) || (looks_rooted(trimmed(input@))
                && parse_outcome(trimmed(input@), true, res)),
            res is Ok ==> valid_managed_path(trimmed(input@)),
            !looks_rooted(trimmed(input@)) ==> (res is Ok <==> valid_managed_path(trimmed(input@))),
    {
        let normalized = trim_str(input);
        proof {
            crate::pathops::lemma_trimmed_idempotent(input@);
        }
        let (checked, Ghost(absolute)) = validate_managed_path(normalized.as_str());
        match checked {
            Ok(()) => Ok(ManagedPath(normalized)),
            Err(e) => Err(e),
        }
    }

    pub fn as_str(&self) -> (s: &str)
        ensures
            s@ == self.view(),
            valid_managed_path(s@),
            trimmed(s@) == s@,
    {
        proof {
            use_type_invariant(self);
        }
        self.0.as_str()
    }

    /// Equality of the underlying strings.
    pub fn same_as(&self, other: &ManagedPath) -> (eq: bool)
        ensures
            eq <==> self.view() == other.view(),
    {
        self.0 == other.0
    }
}

impl Clone for ManagedPath {
    fn clone(&self) -> (c: Self)
        ensures
            c.view() == self.view(),
    {
        proof {
            use_type_invariant(self);
        }
        ManagedPath(self.0.clone())
    }
}

impl PartialEq for ManagedPath {
    fn eq(&self, other: &Self) -> (eq: bool) {
        self.0 == other.0
    }
}

impl vstd::std_specs::cmp::PartialEqSpecImpl for ManagedPath {
    open spec fn obeys_eq_spec() -> bool {
        true
    }

    open spec fn eq_spec(&self, other: &ManagedPath) -> bool {
        self.view() == other.view()
    }
}

/// Whether `input` holds a glob metacharacter (`*`, `?`, `[` or `]`).
pub fn has_glob_meta(input: &str) -> (found: bool)
    ensures
        found <==> has_glob_meta_spec(input@),
{
    let n = input.unicode_len();
    let mut i: usize = 0;
    while i < n
        invariant
            n == input@.len(),
            i <= n,
            forall|j: int| 0 <= j < i ==> !is_glob_meta(#[trigger] input@[j]),
        decreases n - i,
    {
        let c = input.get_char(i);
        if c == '*' || c == '?' || c == '[' || c == ']' {
            assert(is_glob_meta(input@[i as int]));
            return true;
        }
        i = i + 1;
    }
    false
}

fn segment_rejection_exec(input: &str, start: usize, end: usize) -> (r: Option<PathRejection>)
    requires
        start <= end <= input@.len(),
    ensures
        r == segment_rejection(input@.subrange(start as int, end as int)),
{
    let seg = input.substring_char(start, end).to_owned();
    let dot = String::from_str(".");
    let dotdot = String::from_str("..");
    let git = String::from_str(".git");
    let wk = String::from_str(".wk");
    if end == start || seg == dot {
        Some(PathRejection::NotNormalized)
    } else if seg == dotdot {
        Some(PathRejection::ParentTraversal)
    } else if seg == git || seg == wk {
        Some(PathRejection::Reserved)
    } else {
        None
    }
}

proof fn lemma_split_step(s: Seq<char>, i: int, start: int)
    requires
        0 <= start <= i < s.len(),
        split_on_slash(s.take(i)).last() == s.subrange(start, i),
        split_on_slash(s.take(i)).len() >= 1,
    ensures
        s.take(i + 1).drop_last() == s.take(i),
        s[i] == '/' ==> split_on_slash(s.take(i + 1)) == split_on_slash(s.take(i)).push(
            Seq::<char>::empty(),
        ),
        s[i] != '/' ==> split_on_slash(s.take(i + 1)).last() == s.subrange(start, i + 1),
        s[i] != '/' ==> split_on_slash(s.take(i + 1)).drop_last() == split_on_slash(
            s.take(i),
        ).drop_last(),
        split_on_slash(s.take(i + 1)).len() >= 1,
{
    assert(s.take(i + 1).drop_last() =~= s.take(i));
    assert(s.take(i + 1).last() == s[i]);
    if s[i] != '/' {
        assert(s.subrange(start, i).push(s[i]) =~= s.subrange(start, i + 1));
        let prev = split_on_slash(s.take(i));
        assert(prev.update(prev.len() - 1, prev.last().push(s[i])).drop_last() =~= prev.drop_last());
    }
}

proof fn lemma_first_rejection_push(segs: Seq<Seq<char>>, seg: Seq<char>)
    ensures
        first_segment_rejection(segs.push(seg)) == match first_segment_rejection(segs) {
            Some(r) => Some(r),
            None => segment_rejection(seg),
        },
{
    assert(segs.push(seg).drop_last() =~= segs);
}

/// Validates a trimmed candidate; also returns what the platform said about
/// absoluteness, which decides between two rejections for rooted inputs.
fn validate_managed_path(input: &str) -> (res: (Result<(), WkError>, Ghost<bool>))
    ensures
        res.1@ ==> looks_rooted(input@),
        validation_outcome(input@, res.1@, res.0),
{
    let n = input.unicode_len();
    if n == 0 {
        return (Err(WkError::invalid_managed_path(input, "path cannot be empty")), Ghost(false));
    }
    if has_glob_meta(input) {
        return (
            Err(WkError::invalid_managed_path(input, "persisted paths must be concrete, not globs")),
            Ghost(false),
        );
    }
    let absolute = path_is_absolute(input);
    if absolute {
        return (
            Err(WkError::invalid_managed_path(input, "path must be repository-relative")),
            Ghost(true),
        );
    }
    let ghost s = input@;
    let mut start: usize = 0;
    let mut i: usize = 0;
    assert(s.take(0) =~= Seq::<char>::empty());
    assert(s.subrange(0, 0) =~= Seq::<char>::empty());
    while i < n
        invariant
            n == s.len(),
            s == input@,
            n > 0,
            !has_glob_meta_spec(s),
            start <= i <= n,
            split_on_slash(s.take(i as int)).len() >= 1,
            split_on_slash(s.take(i as int)).last() == s.subrange(start as int, i as int),
            first_segment_rejection(split_on_slash(s.take(i as int)).drop_last()) is None,
        decreases n - i,
    {
        let c = input.get_char(i);
        proof {
            lemma_split_step(s, i as int, start as int);
        }
        if c == '/' {
            let r = segment_rejection_exec(input, start, i);
            proof {
                let prev = split_on_slash(s.take(i as int));
                lemma_first_rejection_push(prev.drop_last(), prev.last());
                assert(prev.drop_last().push(prev.last()) =~= prev);
                let next = split_on_slash(s.take(i as int + 1));
                assert(next.drop_last() =~= prev);
                assert(next.last() =~= s.subrange(i as int + 1, i as int + 1));
            }
            match r {
                Some(rej) => {
                    proof {
                        let prev = split_on_slash(s.take(i as int));
                        assert(first_segment_rejection(prev) == Some(rej));
                        lemma_prefix_rejection_persists(s, i as int + 1, prev);
                        assert(first_segment_rejection(split_on_slash(s)) == Some(rej));
                        assert(!has_glob_meta_spec(s));
                        assert(path_rejection(s, false) == Some(rej));
                    }
                    return (Err(WkError::invalid_managed_path(input, reason_text(rej))), Ghost(false));
                }
                None => {}
            }
            start = i + 1;
        }
        i = i + 1;
    }
    assert(s.take(n as int) =~= s);
    let r = segment_rejection_exec(input, start, n);
    proof {
        let segs = split_on_slash(s);
        lemma_first_rejection_push(segs.drop_last(), segs.last());
        assert(segs.drop_last().push(segs.last()) =~= segs);
    }
    match r {
        Some(rej) => (Err(WkError::invalid_managed_path(input, reason_text(rej))), Ghost(false)),
        None => (Ok(()), Ghost(false)),
    }
}

/// Once a prefix of the segments is rejected, every longer string with that
/// prefix is rejected for the same reason.
proof fn lemma_prefix_rejection_persists(s: Seq<char>, k: int, prefix_segs: Seq<Seq<char>>)
    requires
        1 <= k <= s.len(),
        s[k - 1] == '/',
        split_on_slash(s.take(k)) == prefix_segs.push(Seq::<char>::empty()),
        first_segment_rejection(prefix_segs) is Some,
    ensures
        first_segment_rejection(split_on_slash(s)) == first_segment_rejection(prefix_segs),
    decreases s.len() - k,
{
    lemma_rejection_extends(s, k, prefix_segs, s.len() as int);
    assert(s.take(s.len() as int) =~= s);
}

/// Growing the string only changes the last segment or adds segments after it,
/// so a rejection among the completed segments is kept.
proof fn lemma_rejection_extends(s: Seq<char>, k: int, prefix_segs: Seq<Seq<char>>, m: int)
    requires
        1 <= k <= m <= s.len(),
        split_on_slash(s.take(k)) == prefix_segs.push(Seq::<char>::empty()),
        first_segment_rejection(prefix_segs) is Some,
    ensures
        split_on_slash(s.take(m)).len() >= prefix_segs.len() + 1,
        split_on_slash(s.take(m)).subrange(0, prefix_segs.len() as int) == prefix_segs,
        first_segment_rejection(split_on_slash(s.take(m))) == first_segment_rejection(prefix_segs),
    decreases m - k,
{
    if m == k {
        let segs = split_on_slash(s.take(k));
        assert(segs.subrange(0, prefix_segs.len() as int) =~= prefix_segs);
        lemma_first_rejection_push(prefix_segs, Seq::<char>::empty());
    } else {
        lemma_rejection_extends(s, k, prefix_segs, m - 1);
        let prev = split_on_slash(s.take(m - 1));
        let cur = split_on_slash(s.take(m));
        assert(s.take(m).drop_last() =~= s.take(m - 1));
        assert(s.take(m).last() == s[m - 1]);
        if s[m - 1] == '/' {
            assert(cur == prev.push(Seq::<char>::empty()));
            assert(cur.subrange(0, prefix_segs.len() as int) =~= prev.subrange(0, prefix_segs.len() as int));
            lemma_first_rejection_push(prev, Seq::<char>::empty());
        } else {
            assert(cur == prev.update(prev.len() - 1, prev.last().push(s[m - 1])));
            assert(cur.subrange(0, prefix_segs.len() as int) =~= prev.subrange(0, prefix_segs.len() as int));
            lemma_rejection_stable_under_last_update(prev, prefix_segs.len() as int, prev.last().push(s[m - 1]));
        }
    }
}

/// Changing the last segment keeps a rejection found strictly before it.
proof fn lemma_rejection_stable_under_last_update(segs: Seq<Seq<char>>, p: int, seg: Seq<char>)
    requires
        1 <= p < segs.len(),
        first_segment_rejection(segs.subrange(0, p)) is Some,
    ensures
        first_segment_rejection(segs.update(segs.len() - 1, seg)) == first_segment_rejection(segs.subrange(0, p)),
        first_segment_rejection(segs) == first_segment_rejection(segs.subrange(0, p)),
    decreases segs.len(),
{
    let upd = segs.update(segs.len() - 1, seg);
    assert(upd.drop_last() =~= segs.drop_last());
    assert(segs.drop_last().subrange(0, p) =~= segs.subrange(0, p));
    lemma_prefix_rejection_kept(segs, p);
    lemma_prefix_rejection_kept(segs.drop_last(), p);
}

/// A rejection among the first `p` segments is the rejection of the whole list.
proof fn lemma_prefix_rejection_kept(segs: Seq<Seq<char>>, p: int)
    requires
        1 <= p <= segs.len(),
        first_segment_rejection(segs.subrange(0, p)) is Some,
    ensures
        first_segment_rejection(segs) == first_segment_rejection(segs.subrange(0, p)),
    decreases segs.len(),
{
    if segs.len() == p {
        assert(segs.subrange(0, p) =~= segs);
    } else {
        assert(segs.drop_last().subrange(0, p) =~= segs.subrange(0, p));
        lemma_prefix_rejection_kept(segs.drop_last(), p);
    }
}

fn reason_text(r: PathRejection) -> (t: &'static str)
    ensures
        t@ == rejection_reason(r),
{
    match r {
        PathRejection::Empty => "path cannot be empty",
        PathRejection::Glob => "persisted paths must be concrete, not globs",
        PathRejection::Absolute => "path must be repository-relative",
        PathRejection::NotNormalized => "path must be normalized",
        PathRejection::ParentTraversal => "path must not contain parent traversal",
        PathRejection::Reserved => "nested .git and .wk paths are not managed",
    }
}

proof fn lemma_split_prefix_step(s: Seq<char>, i: int, start: int)
    requires
        0 <= start <= i < s.len(),
        split_on_slash(s.take(i)).len() >= 1,
        split_on_slash(s.take(i)).last() == s.subrange(start, i),
    ensures
        s[i] == '/' ==> split_on_slash(s.take(i + 1)) == split_on_slash(s.take(i)).push(
            Seq::<char>::empty(),
        ),
        s[i] != '/' ==> split_on_slash(s.take(i + 1)) == split_on_slash(s.take(i)).drop_last().push(
            s.subrange(start, i + 1),
        ),
{
    assert(s.take(i + 1).drop_last() =~= s.take(i));
    assert(s.take(i + 1).last() == s[i]);
    if s[i] != '/' {
        let prev = split_on_slash(s.take(i));
        assert(s.subrange(start, i).push(s[i]) =~= s.subrange(start, i + 1));
        assert(prev.update(prev.len() - 1, prev.last().push(s[i])) =~= prev.drop_last().push(
            s.subrange(start, i + 1),
        ));
    }
}

/// Whether some `/`-separated segment of `t` is `seg`.
pub fn has_segment(t: &str, seg: &str) -> (found: bool)
    ensures
        found <==> split_on_slash(t@).contains(seg@),
{
    let n = t.unicode_len();
    let ghost s = t@;
    let dotdot = seg.to_owned();
    let mut start: usize = 0;
    let mut i: usize = 0;
    let mut found = false;
    assert(s.take(0) =~= Seq::<char>::empty());
    assert(s.subrange(0, 0) =~= Seq::<char>::empty());
    while i < n
        invariant
            n == s.len(),
            s == t@,
            dotdot@ == seg@,
            start <= i <= n,
            split_on_slash(s.take(i as int)).len() >= 1,
            split_on_slash(s.take(i as int)).last() == s.subrange(start as int, i as int),
            found <==> split_on_slash(s.take(i as int)).drop_last().contains(seg@),
        decreases n - i,
    {
        let c = t.get_char(i);
        proof {
            lemma_split_prefix_step(s, i as int, start as int);
        }
        if c == '/' {
            let piece = t.substring_char(start, i).to_owned();
            let prev = Ghost(split_on_slash(s.take(i as int)));
            proof {
                assert(prev@.drop_last().push(prev@.last()) =~= prev@);
                assert(split_on_slash(s.take(i as int + 1)).drop_last() =~= prev@);
            }
            if piece == dotdot {
                found = true;
            }
            proof {
                assert(found <==> prev@.drop_last().push(prev@.last()).contains(seg@)) by {
                    let q = prev@.drop_last().push(prev@.last());
                    if prev@.drop_last().contains(seg@) {
                        let k = choose|k: int| 0 <= k < prev@.drop_last().len() && prev@.drop_last()[k] == seg@;
                        assert(q[k] == seg@);
                    }
                    if q.contains(seg@) {
                        let k = choose|k: int| 0 <= k < q.len() && q[k] == seg@;
                        if k < prev@.drop_last().len() {
                            assert(prev@.drop_last()[k] == seg@);
                        }
                    }
                }
                assert(split_on_slash(s.take(i as int + 1)).last() =~= s.subrange(i as int + 1, i as int + 1));
            }
            start = i + 1;
        } else {
            proof {
                let prev = split_on_slash(s.take(i as int));
                assert(split_on_slash(s.take(i as int + 1)).drop_last() =~= prev.drop_last());
            }
        }
        i = i + 1;
    }
    assert(s.take(n as int) =~= s);
    let last = t.substring_char(start, n).to_owned();
    let segs = Ghost(split_on_slash(s));
    proof {
        assert(segs@.drop_last().push(segs@.last()) =~= segs@);
    }
    let result = found || last == dotdot;
    proof {
        let q = segs@.drop_last().push(segs@.last());
        if segs@.drop_last().contains(seg@) {
            let k = choose|k: int| 0 <= k < segs@.drop_last().len() && segs@.drop_last()[k] == seg@;
            assert(q[k] == seg@);
        }
        if last@ == seg@ {
            assert(q[q.len() - 1] == seg@);
        }
        if q.contains(seg@) {
            let k = choose|k: int| 0 <= k < q.len() && q[k] == seg@;
            if k < segs@.drop_last().len() {
                assert(segs@.drop_last()[k] == seg@);
            }
        }
    }
    result
}

} // verus!
