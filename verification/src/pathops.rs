//! Thin, trusted bridges to the path and string functions of `camino` and std
//! that the planners use. Each one makes a single outside call.
use vstd::prelude::*;

use crate::text::opt_view;

verus! {

/// A character with the Unicode `White_Space` property, which is what
/// `char::is_whitespace` and `str::trim` go by.
pub open spec fn is_white_space(c: char) -> bool {
    ||| c == '\t'
    ||| c == '\n'
    ||| c == '\u{0B}'
    ||| c == '\u{0C}'
    ||| c == '\r'
    ||| c == ' '
    ||| c == '\u{85}'
    ||| c == '\u{A0}'
    ||| c == '\u{1680}'
    ||| ('\u{2000}' <= c && c <= '\u{200A}')
    ||| c == '\u{2028}'
    ||| c == '\u{2029}'
    ||| c == '\u{202F}'
    ||| c == '\u{205F}'
    ||| c == '\u{3000}'
}

/// The string without its leading white space.
pub open spec fn trim_start(s: Seq<char>) -> Seq<char>
    decreases s.len(),
{
    if s.len() > 0 && is_white_space(s[0]) {
        trim_start(s.drop_first())
    } else {
        s
    }
}

/// The string without its trailing white space.
pub open spec fn trim_end(s: Seq<char>) -> Seq<char>
    decreases s.len(),
{
    if s.len() > 0 && is_white_space(s.last()) {
        trim_end(s.drop_last())
    } else {
        s
    }
}

/// What `str::trim` returns: the string without leading and trailing white
/// space.
pub open spec fn trimmed(s: Seq<char>) -> Seq<char> {
    trim_end(trim_start(s))
}

proof fn lemma_trim_start(s: Seq<char>)
    ensures
        trim_start(s).len() == 0 || !is_white_space(trim_start(s)[0]),
    decreases s.len(),
{
    if s.len() > 0 && is_white_space(s[0]) {
        lemma_trim_start(s.drop_first());
    }
}

proof fn lemma_trim_end(s: Seq<char>)
    ensures
        trim_end(s).len() <= s.len(),
        trim_end(s) == s.take(trim_end(s).len() as int),
        trim_end(s).len() == 0 || !is_white_space(trim_end(s).last()),
    decreases s.len(),
{
    if s.len() > 0 && is_white_space(s.last()) {
        lemma_trim_end(s.drop_last());
        let r = trim_end(s.drop_last());
        assert(s.drop_last().take(r.len() as int) =~= s.take(r.len() as int));
    } else {
        assert(s.take(s.len() as int) =~= s);
    }
}

/// Trimming twice trims no more than once.
pub proof fn lemma_trimmed_idempotent(s: Seq<char>)
    ensures
        trimmed(trimmed(s)) == trimmed(s),
{
    let a = trim_start(s);
    let t = trim_end(a);
    lemma_trim_start(s);
    lemma_trim_end(a);
    if t.len() > 0 {
        assert(t[0] == a[0]);
        assert(trim_start(t) == t);
        assert(trim_end(t) == t);
    } else {
        assert(trim_start(t) == t);
        assert(trim_end(t) == t);
    }
}

/// A string of printable ASCII characters has no white space to trim.
pub proof fn lemma_printable_untrimmed(s: Seq<char>)
    requires
        forall|i: int| 0 <= i < s.len() ==> '!' <= #[trigger] s[i] <= '~',
    ensures
        trimmed(s) == s,
{
    if s.len() > 0 {
        assert('!' <= s[0] <= '~');
        assert('!' <= s.last() <= '~');
    }
    assert(trim_start(s) == s);
    assert(trim_end(s) == s);
}

/// Calls `str::trim`; the result is `s` without leading and trailing
/// characters of the Unicode `White_Space` property, as its documentation
/// states.
#[verifier::external_body]
pub(crate) fn trim_str(s: &str) -> (t: String)
    ensures
        t@ == trimmed(s@),
{
    s.trim().to_owned()
}

/// A string that could denote an absolute path on some platform that `camino`
/// supports: it starts with a separator, or carries a drive prefix such as `C:`.
pub open spec fn looks_rooted(s: Seq<char>) -> bool {
    ||| (s.len() > 0 && (s[0] == '/' || s[0] == '\\'))
    ||| (s.len() >= 2 && s[1] == ':')
}

/// Calls `camino::Utf8Path::is_absolute`. The answer depends on the platform
/// (a leading `/` on Unix, a drive or UNC prefix followed by a root on Windows);
/// the contract states only what holds on every platform: an absolute path
/// looks rooted. When it is true for a rooted-looking string is left unsaid.
#[verifier::external_body]
pub(crate) fn path_is_absolute(s: &str) -> (absolute: bool)
    ensures
        absolute ==> looks_rooted(s@),
{
    camino::Utf8Path::new(s).is_absolute()
}

} // verus!

verus! {

/// What `camino::Utf8Path::join` returns for a base path and a path to adjoin.
pub uninterp spec fn joined(base: Seq<char>, rel: Seq<char>) -> Seq<char>;

/// Calls `camino::Utf8Path::join` and returns the joined path as a string.
/// The contract claims only that the result is what `joined` names.
#[verifier::external_body]
pub(crate) fn join_path(base: &str, rel: &str) -> (p: String)
    ensures
        p@ == joined(base@, rel@),
{
    camino::Utf8Path::new(base).join(rel).into_string()
}

/// The last component of a path, as `camino::Utf8Path::file_name` gives it.
pub uninterp spec fn file_name_of(p: Seq<char>) -> Option<Seq<char>>;

/// Calls `camino::Utf8Path::file_name`; the result is what `file_name_of`
/// names.
#[verifier::external_body]
pub(crate) fn file_name(p: &str) -> (r: Option<String>)
    ensures
        crate::text::opt_view(r) == file_name_of(p@),
{
    match camino::Utf8Path::new(p).file_name() {
        Some(name) => Some(name.to_owned()),
        None => None,
    }
}

/// The parent of a path, as `camino::Utf8Path::parent` gives it.
pub uninterp spec fn parent_of(p: Seq<char>) -> Option<Seq<char>>;

/// Calls `camino::Utf8Path::parent`; the result is what `parent_of` names.
#[verifier::external_body]
pub(crate) fn path_parent(p: &str) -> (r: Option<String>)
    ensures
        opt_view(r) == parent_of(p@),
{
    match camino::Utf8Path::new(p).parent() {
        Some(q) => Some(q.as_str().to_owned()),
        None => None,
    }
}

/// Whether `p` starts with the components of `base`, as
/// `camino::Utf8Path::starts_with` decides.
pub uninterp spec fn path_has_prefix(p: Seq<char>, base: Seq<char>) -> bool;

/// Calls `camino::Utf8Path::starts_with`; the result is what
/// `path_has_prefix` names.
#[verifier::external_body]
pub(crate) fn path_starts_with(p: &str, base: &str) -> (b: bool)
    ensures
        b == path_has_prefix(p@, base@),
{
    camino::Utf8Path::new(p).starts_with(base)
}

} // verus!
