//! Repository context: the main worktree, the control directory and the live
//! worktrees with their stable identities.
use vstd::prelude::*;

use crate::error::WkError;
use crate::pathops::{
    file_name, file_name_of, join_path, joined, looks_rooted, parent_of, path_has_prefix, path_is_absolute, path_parent,
    path_starts_with,
};
use crate::text::{cat, cat4, lemma_text_order, str_eq, text_less, text_less_exec};

verus! {

/// The stable identity of a worktree: `main` for the source worktree, the
/// linked worktree's git-dir name otherwise.
#[derive(Debug, PartialOrd, Ord, Hash)]
pub struct WorktreeId(String);

impl WorktreeId {
    pub closed spec fn view(self) -> Seq<char> {
        self.0@
    }

    pub fn main() -> (id: Self)
        ensures
            id.view() == "main"@,
    {
        WorktreeId(String::from_str("main"))
    }

    pub fn linked(value: &str) -> (id: Self)
        ensures
            id.view() == value@,
    {
        WorktreeId(value.to_owned())
    }

    pub fn as_str(&self) -> (s: &str)
        ensures
            s@ == self.view(),
    {
        self.0.as_str()
    }

    pub fn same_as(&self, other: &WorktreeId) -> (eq: bool)
        ensures
            eq <==> self.view() == other.view(),
    {
        self.0 == other.0
    }
}

impl Clone for WorktreeId {
    fn clone(&self) -> (c: Self)
        ensures
            c.view() == self.view(),
    {
        WorktreeId(self.0.clone())
    }
}

impl PartialEq for WorktreeId {
    fn eq(&self, other: &Self) -> (eq: bool) {
        self.0 == other.0
    }
}

impl Eq for WorktreeId {
}

impl vstd::std_specs::cmp::PartialEqSpecImpl for WorktreeId {
    open spec fn obeys_eq_spec() -> bool {
        true
    }

    open spec fn eq_spec(&self, other: &WorktreeId) -> bool {
        self.view() == other.view()
    }
}

/// A live worktree: its identity, its current path, and whether it is the
/// source (main) worktree.
#[derive(Debug)]
pub struct WorktreeInfo {
    pub id: WorktreeId,
    pub path: String,
    pub is_source: bool,
}

impl WorktreeInfo {
    pub fn duplicate(&self) -> (w: Self)
        ensures
            w.id.view() == self.id.view(),
            w.path@ == self.path@,
            w.is_source == self.is_source,
    {
        WorktreeInfo { id: self.id.clone(), path: self.path.clone(), is_source: self.is_source }
    }
}

/// Where the repository lives and which worktrees are live.
#[derive(Debug)]
pub struct RepoContext {
    pub main_worktree: String,
    pub git_common_dir: String,
    pub control_dir: String,
    pub worktrees: Vec<WorktreeInfo>,
}

/// The positions of the non-source worktrees, in order.
pub open spec fn non_source_positions(ws: Seq<WorktreeInfo>) -> Seq<int>
    decreases ws.len(),
{
    if ws.len() == 0 {
        Seq::empty()
    } else {
        let prev = non_source_positions(ws.drop_last());
        if ws.last().is_source {
            prev
        } else {
            prev.push(ws.len() - 1)
        }
    }
}

pub proof fn lemma_non_source_positions(ws: Seq<WorktreeInfo>)
    ensures
        forall|i: int| 0 <= i < non_source_positions(ws).len() ==> 0 <= #[trigger] non_source_positions(ws)[i] < ws.len()
            && !ws[non_source_positions(ws)[i]].is_source,
        forall|i: int, j: int| 0 <= i < j < non_source_positions(ws).len() ==> #[trigger] non_source_positions(ws)[i]
            < #[trigger] non_source_positions(ws)[j],
        forall|p: int| 0 <= p < ws.len() && !ws[p].is_source ==> non_source_positions(ws).contains(p),
    decreases ws.len(),
{
    if ws.len() > 0 {
        lemma_non_source_positions(ws.drop_last());
        let prev = non_source_positions(ws.drop_last());
        assert forall|p: int| 0 <= p < ws.len() && !ws[p].is_source implies non_source_positions(ws).contains(p) by {
            if p < ws.len() - 1 {
                assert(ws.drop_last()[p] == ws[p]);
                assert(!ws.drop_last()[p].is_source);
                assert(prev.contains(p));
                let k = choose|k: int| 0 <= k < prev.len() && prev[k] == p;
                if !ws.last().is_source {
                    assert(non_source_positions(ws)[k] == p);
                }
            } else {
                assert(non_source_positions(ws)[prev.len() as int] == p);
            }
        }
        assert forall|i: int| 0 <= i < non_source_positions(ws).len() implies 0 <= #[trigger] non_source_positions(ws)[i] < ws.len()
            && !ws[non_source_positions(ws)[i]].is_source by {
            if i < prev.len() {
                assert(ws.drop_last()[prev[i]] == ws[prev[i]]);
            }
        }
    }
}

impl RepoContext {
    /// The worktrees that are apply destinations: every live worktree except
    /// the source.
    pub fn non_source_worktrees(&self) -> (r: Vec<&WorktreeInfo>)
        ensures
            r@.len() == non_source_positions(self.worktrees@).len(),
            forall|i: int| 0 <= i < r@.len() ==> *r@[i] == self.worktrees@[non_source_positions(self.worktrees@)[i]],
    {
        let mut out: Vec<&WorktreeInfo> = Vec::new();
        let mut i: usize = 0;
        while i < self.worktrees.len()
            invariant
                i <= self.worktrees@.len(),
                out@.len() == non_source_positions(self.worktrees@.take(i as int)).len(),
                forall|k: int| 0 <= k < out@.len() ==> *out@[k] == self.worktrees@[non_source_positions(
                    self.worktrees@.take(i as int),
                )[k]],
            decreases self.worktrees@.len() - i,
        {
            let ghost ws = self.worktrees@;
            proof {
                assert(ws.take(i as int + 1).drop_last() =~= ws.take(i as int));
                lemma_non_source_positions(ws.take(i as int));
            }
            let w = &self.worktrees[i];
            if !w.is_source {
                out.push(w);
            }
            i = i + 1;
        }
        proof {
            assert(self.worktrees@.take(self.worktrees@.len() as int) =~= self.worktrees@);
        }
        out
    }

    /// The non-source worktree whose identity or path equals `selector`.
    pub fn find_worktree(&self, selector: &str) -> (r: Option<&WorktreeInfo>)
        ensures
            match r {
                Some(w) => !w.is_source && (w.id.view() == selector@ || w.path@ == selector@) && exists|i: int|
                    0 <= i < self.worktrees@.len() && self.worktrees@[i] == *w,
                None => forall|i: int| 0 <= i < self.worktrees@.len() && !(#[trigger] self.worktrees@[i]).is_source
                    ==> self.worktrees@[i].id.view() != selector@ && self.worktrees@[i].path@ != selector@,
            },
    {
        let mut i: usize = 0;
        while i < self.worktrees.len()
            invariant
                i <= self.worktrees@.len(),
                forall|j: int| 0 <= j < i && !(#[trigger] self.worktrees@[j]).is_source ==> self.worktrees@[j].id.view()
                    != selector@ && self.worktrees@[j].path@ != selector@,
            decreases self.worktrees@.len() - i,
        {
            let w = &self.worktrees[i];
            if !w.is_source && (str_eq(w.id.as_str(), selector) || str_eq(w.path.as_str(), selector)) {
                return Some(w);
            }
            i = i + 1;
        }
        None
    }
}


/// The main worktree of a repository whose common git dir is
/// `git_common_dir`: the parent of that dir, which must be a normal `.git`
/// directory.
pub fn main_worktree_from_common_dir(git_common_dir: &str) -> (r: Result<String, WkError>)
    ensures
        file_name_of(git_common_dir@) != Some(".git"@) ==> r matches Err(WkError::UnsupportedRepository { .. }),
        file_name_of(git_common_dir@) == Some(".git"@) ==> (r is Ok <==> parent_of(git_common_dir@) is Some),
        r matches Ok(m) ==> parent_of(git_common_dir@) == Some(m@),
{
    let is_git = match file_name(git_common_dir) {
        Some(name) => str_eq(name.as_str(), ".git"),
        None => false,
    };
    if !is_git {
        return Err(
            WkError::unsupported_repository(
                cat("expected common git dir to be a normal .git directory, got ", git_common_dir),
            ),
        );
    }
    match path_parent(git_common_dir) {
        Some(parent) => Ok(parent),
        None => Err(WkError::unsupported_repository(String::from_str("common git dir has no parent"))),
    }
}

/// The identity of a linked worktree from its git dir: the name of that dir,
/// which must lie under `<common git dir>/worktrees`.
pub fn linked_worktree_id(git_dir: &str, git_common_dir: &str) -> (r: Result<WorktreeId, WkError>)
    ensures
        !path_has_prefix(git_dir@, joined(git_common_dir@, "worktrees"@)) ==> r is Err,
        path_has_prefix(git_dir@, joined(git_common_dir@, "worktrees"@)) ==> (r is Ok <==> file_name_of(git_dir@) is Some),
        r matches Ok(id) ==> file_name_of(git_dir@) == Some(id.view()),
{
    let worktrees_dir = join_path(git_common_dir, "worktrees");
    proof {
        reveal_strlit("worktrees");
    }
    if !path_starts_with(git_dir, worktrees_dir.as_str()) {
        return Err(
            WkError::unsupported_repository(
                cat4("linked worktree git dir is outside ", worktrees_dir.as_str(), ": ", git_dir),
            ),
        );
    }
    match file_name(git_dir) {
        Some(name) => Ok(WorktreeId::linked(name.as_str())),
        None => Err(WkError::unsupported_repository(cat("missing worktree id: ", git_dir))),
    }
}

/// The worktree at `path`: the source when it is the main worktree, and
/// otherwise a linked worktree with identity `linked_id`.
pub fn worktree_info(main_worktree: &str, path: String, linked_id: WorktreeId) -> (w: WorktreeInfo)
    ensures
        w.path@ == path@,
        w.is_source <==> path@ == main_worktree@,
        w.is_source ==> w.id.view() == "main"@,
        !w.is_source ==> w.id.view() == linked_id.view(),
{
    let is_source = str_eq(path.as_str(), main_worktree);
    let id = if is_source {
        WorktreeId::main()
    } else {
        linked_id
    };
    WorktreeInfo { id, path, is_source }
}

/// A line of the porcelain listing without a trailing carriage return.
pub open spec fn bare_line(piece: Seq<char>) -> Seq<char> {
    if piece.len() > 0 && piece.last() == '\r' {
        piece.drop_last()
    } else {
        piece
    }
}

/// A line of `git worktree list --porcelain` names a worktree when it starts
/// with `worktree `; the rest of the line is the path.
pub open spec fn worktree_line(piece: Seq<char>) -> Option<Seq<char>> {
    let line = bare_line(piece);
    if line.len() >= 9 && line.take(9) == "worktree "@ {
        Some(line.skip(9))
    } else {
        None
    }
}

/// A line that marks the current worktree as prunable (its directory is
/// gone): `prunable`, alone or followed by a space and a reason.
pub open spec fn prunable_line(piece: Seq<char>) -> bool {
    let line = bare_line(piece);
    line.len() >= 8 && line.take(8) == "prunable"@ && (line.len() == 8 || line[8] == ' ')
}

/// The worktrees listed so far, and the one being read with whether it is
/// marked prunable.
pub type ListingScan = (Seq<Seq<char>>, Option<(Seq<char>, bool)>);

/// The listed worktrees once the one being read is closed: it is kept unless
/// it is prunable.
pub open spec fn flush(done: Seq<Seq<char>>, current: Option<(Seq<char>, bool)>) -> Seq<Seq<char>> {
    match current {
        Some((p, false)) => done.push(p),
        _ => done,
    }
}

pub open spec fn scan_step(st: ListingScan, piece: Seq<char>) -> ListingScan {
    match worktree_line(piece) {
        Some(p) => (flush(st.0, st.1), Some((p, false))),
        None => if prunable_line(piece) {
            (
                st.0,
                match st.1 {
                    Some((p, _)) => Some((p, true)),
                    None => None,
                },
            )
        } else {
            st
        },
    }
}

pub open spec fn scan_lines(pieces: Seq<Seq<char>>) -> ListingScan
    decreases pieces.len(),
{
    if pieces.len() == 0 {
        (Seq::empty(), None)
    } else {
        scan_step(scan_lines(pieces.drop_last()), pieces.last())
    }
}

/// The paths of the live worktrees a listing names, in order: every
/// `worktree` record except those marked prunable.
pub open spec fn live_worktree_paths(pieces: Seq<Seq<char>>) -> Seq<Seq<char>> {
    let st = scan_lines(pieces);
    flush(st.0, st.1)
}

fn bare_line_exec(piece: &str) -> (line: &str)
    ensures
        line@ == bare_line(piece@),
{
    let n = piece.unicode_len();
    if n > 0 && piece.get_char(n - 1) == '\r' {
        let line = piece.substring_char(0, n - 1);
        proof {
            assert(line@ =~= piece@.drop_last());
        }
        line
    } else {
        piece
    }
}

fn worktree_line_exec(piece: &str) -> (r: Option<String>)
    ensures
        crate::text::opt_view(r) == worktree_line(piece@),
{
    let line = bare_line_exec(piece);
    let m = line.unicode_len();
    if m >= 9 {
        let head = line.substring_char(0, 9);
        proof {
            assert(head@ =~= line@.take(9));
        }
        if str_eq(head, "worktree ") {
            let rest = line.substring_char(9, m);
            proof {
                assert(rest@ =~= line@.skip(9));
            }
            return Some(rest.to_owned());
        }
    }
    None
}

fn prunable_line_exec(piece: &str) -> (b: bool)
    ensures
        b == prunable_line(piece@),
{
    let line = bare_line_exec(piece);
    let m = line.unicode_len();
    if m >= 8 {
        let head = line.substring_char(0, 8);
        proof {
            assert(head@ =~= line@.take(8));
        }
        if str_eq(head, "prunable") {
            return m == 8 || line.get_char(8) == ' ';
        }
    }
    false
}

pub open spec fn current_view(current: Option<String>, prunable: bool) -> Option<(Seq<char>, bool)> {
    match current {
        Some(p) => Some((p@, prunable)),
        None => None,
    }
}

fn close_current(done: &mut Vec<String>, current: Option<String>, prunable: bool)
    ensures
        crate::text::views(final(done)@) == flush(crate::text::views(old(done)@), current_view(current, prunable)),
{
    match current {
        Some(p) => {
            if !prunable {
                done.push(p);
                proof {
                    assert(crate::text::views(done@) =~= crate::text::views(old(done)@).push(p@));
                }
            }
        },
        None => {},
    }
}

fn scan_piece(done: &mut Vec<String>, current: &mut Option<String>, prunable: &mut bool, piece: &str)
    ensures
        (crate::text::views(final(done)@), current_view(*final(current), *final(prunable))) == scan_step(
            (crate::text::views(old(done)@), current_view(*old(current), *old(prunable))),
            piece@,
        ),
{
    match worktree_line_exec(piece) {
        Some(p) => {
            let previous = current.take();
            close_current(done, previous, *prunable);
            *current = Some(p);
            *prunable = false;
        },
        None => {
            if prunable_line_exec(piece) {
                *prunable = true;
            }
        },
    }
}

/// The paths of the live worktrees that `git worktree list --porcelain`
/// prints, in order; worktrees marked prunable are left out.
pub fn porcelain_worktree_paths(output: &str) -> (paths: Vec<String>)
    ensures
        crate::text::views(paths@) == live_worktree_paths(crate::text::split_on_char(output@, '\n')),
{
    let n = output.unicode_len();
    let ghost s = output@;
    let mut start: usize = 0;
    let mut i: usize = 0;
    let mut done: Vec<String> = Vec::new();
    let mut current: Option<String> = None;
    let mut prunable = false;
    proof {
        assert(s.take(0) =~= Seq::<char>::empty());
        assert(s.subrange(0, 0) =~= Seq::<char>::empty());
        assert(crate::text::views(done@) =~= Seq::<Seq<char>>::empty());
    }
    while i < n
        invariant
            n == s.len(),
            s == output@,
            start <= i <= n,
            crate::text::split_on_char(s.take(i as int), '\n').len() >= 1,
            crate::text::split_on_char(s.take(i as int), '\n').last() == s.subrange(start as int, i as int),
            (crate::text::views(done@), current_view(current, prunable)) == scan_lines(
                crate::text::split_on_char(s.take(i as int), '\n').drop_last(),
            ),
        decreases n - i,
    {
        let c = output.get_char(i);
        proof {
            crate::text::lemma_split_char_step(s, '\n', i as int, start as int);
        }
        if c == '\n' {
            let piece = output.substring_char(start, i);
            scan_piece(&mut done, &mut current, &mut prunable, piece);
            proof {
                let prev = crate::text::split_on_char(s.take(i as int), '\n');
                assert(crate::text::split_on_char(s.take(i as int + 1), '\n').drop_last() =~= prev);
                assert(prev.drop_last().push(prev.last()) =~= prev);
                assert(prev.drop_last() =~= prev.drop_last());
                assert(scan_lines(prev) == scan_step(scan_lines(prev.drop_last()), prev.last()));
                assert(crate::text::split_on_char(s.take(i as int + 1), '\n').last() =~= s.subrange(
                    i as int + 1,
                    i as int + 1,
                ));
            }
            start = i + 1;
        } else {
            proof {
                let prev = crate::text::split_on_char(s.take(i as int), '\n');
                assert(crate::text::split_on_char(s.take(i as int + 1), '\n').drop_last() =~= prev.drop_last());
            }
        }
        i = i + 1;
    }
    proof {
        assert(s.take(n as int) =~= s);
    }
    let last = output.substring_char(start, n);
    scan_piece(&mut done, &mut current, &mut prunable, last);
    proof {
        let all = crate::text::split_on_char(s, '\n');
        assert(all.drop_last().push(all.last()) =~= all);
        assert(scan_lines(all) == scan_step(scan_lines(all.drop_last()), all.last()));
    }
    close_current(&mut done, current, prunable);
    done
}


/// Each worktree's identity is not below that of an earlier one.
pub open spec fn sorted_by_id(ws: Seq<WorktreeInfo>) -> bool {
    forall|i: int, j: int| 0 <= i < j < ws.len() ==> !text_less(#[trigger] ws[j].id.view(), #[trigger] ws[i].id.view())
}

/// Orders worktrees by identity, keeping the order of equal identities.
#[verifier::spinoff_prover]
#[verifier::rlimit(30)]
pub fn sort_worktrees(ws: Vec<WorktreeInfo>) -> (sorted: Vec<WorktreeInfo>)
    ensures
        sorted_by_id(sorted@),
        sorted@.to_multiset() == ws@.to_multiset(),
{
    let ghost all = ws@;
    let mut rest = ws;
    let mut out: Vec<WorktreeInfo> = Vec::new();
    proof {
        broadcast use vstd::multiset::group_multiset_axioms;

        vstd::seq_lib::to_multiset_len(out@);
        vstd::multiset::lemma_multiset_empty_len(out@.to_multiset());
        assert(out@.to_multiset() =~= vstd::multiset::Multiset::<WorktreeInfo>::empty());
        assert(out@.to_multiset().add(rest@.to_multiset()) =~= all.to_multiset());
    }
    while rest.len() > 0
        invariant
            sorted_by_id(out@),
            out@.to_multiset().add(rest@.to_multiset()) == all.to_multiset(),
        decreases rest@.len(),
    {
        let ghost rest0 = rest@;
        let w = rest.remove(0);
        proof {
            assert(rest@ == rest0.remove(0));
        }
        let mut k: usize = 0;
        while k < out.len() && !text_less_exec(w.id.as_str(), out[k].id.as_str())
            invariant
                k <= out@.len(),
                forall|i: int| 0 <= i < k ==> !text_less(w.id.view(), #[trigger] out@[i].id.view()),
            decreases out@.len() - k,
        {
            k = k + 1;
        }
        let ghost out0 = out@;
        let ghost wv = w;
        out.insert(k, w);
        proof {
            assert(out@ == out0.insert(k as int, wv));
            assert forall|i: int, j: int| 0 <= i < j < out@.len() implies !text_less(
                #[trigger] out@[j].id.view(),
                #[trigger] out@[i].id.view(),
            ) by {
                if j < k {
                    assert(out@[i] == out0[i] && out@[j] == out0[j]);
                } else if j == k {
                    assert(out@[i] == out0[i]);
                } else if i < k {
                    assert(out@[i] == out0[i] && out@[j] == out0[j - 1]);
                } else if i == k {
                    assert(out@[j] == out0[j - 1]);
                    assert(text_less(wv.id.view(), out0[k as int].id.view()));
                    if j - 1 > k {
                        assert(!text_less(out0[j - 1].id.view(), out0[k as int].id.view()));
                    }
                    lemma_text_order(out0[j - 1].id.view(), wv.id.view(), out0[k as int].id.view());
                } else {
                    assert(out@[i] == out0[i - 1] && out@[j] == out0[j - 1]);
                }
            }
            broadcast use vstd::multiset::group_multiset_axioms;

            vstd::seq_lib::to_multiset_insert(out0, k as int, wv);
            vstd::seq_lib::to_multiset_remove(rest0, 0);
            vstd::seq_lib::to_multiset_contains(rest0, wv);
            assert(rest0.contains(wv)) by {
                assert(rest0[0] == wv);
            }
            assert(out@.to_multiset() == out0.to_multiset().insert(wv));
            assert(rest0.remove(0).to_multiset() == rest0.to_multiset().remove(rest0[0]));
            assert(out@.to_multiset().add(rest@.to_multiset()) =~= all.to_multiset());
        }
    }
    proof {
        broadcast use vstd::multiset::group_multiset_axioms;

        vstd::seq_lib::to_multiset_len(rest@);
        vstd::multiset::lemma_multiset_empty_len(rest@.to_multiset());
        assert(rest@.to_multiset() =~= vstd::multiset::Multiset::<WorktreeInfo>::empty());
        assert(out@.to_multiset().add(rest@.to_multiset()) =~= out@.to_multiset());
    }
    out
}

/// The control directory of a repository: `.wk` in its main worktree.
pub fn control_dir(main_worktree: &str) -> (d: String)
    ensures
        d@ == joined(main_worktree@, ".wk"@),
{
    proof {
        reveal_strlit(".wk");
    }
    join_path(main_worktree, ".wk")
}

/// Where a path that git printed lies: the path itself when it is absolute,
/// otherwise below `cwd`.
pub fn git_path_text(cwd: &str, raw: &str) -> (p: String)
    ensures
        p@ == raw@ || p@ == joined(cwd@, raw@),
        !looks_rooted(raw@) ==> p@ == joined(cwd@, raw@),
{
    if path_is_absolute(raw) {
        raw.to_owned()
    } else {
        join_path(cwd, raw)
    }
}
} // verus!
