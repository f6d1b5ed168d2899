//! The library's error type.
use vstd::prelude::*;

use crate::text::{cat, cat3, cat4};

verus! {

/// Errors of the planners and of the commands built on them. Errors that come
/// from outside calls (I/O, directory walks, TOML) are carried as the text of
/// the outside error.
#[derive(Debug)]
#[allow(inconsistent_fields)]
pub enum WkError {
    NonUtf8Path(String),
    InvalidManagedPath { input: String, reason: &'static str },
    Io(String),
    WalkDir(String),
    UnsupportedRepository { reason: String },
    GitCommand { cwd: String, args: String, stderr: String },
    TomlDeserialize(String),
    TomlSerialize(String),
    Persist { path: String, source: String },
    LockBusy { path: String },
    Message(String),
}

impl WkError {
    pub fn non_utf8_path(path: String) -> (e: Self)
        ensures
            e == WkError::NonUtf8Path(path),
    {
        WkError::NonUtf8Path(path)
    }

    pub fn invalid_managed_path(input: &str, reason: &'static str) -> (e: Self)
        ensures
            e matches WkError::InvalidManagedPath { input: i, reason: r } && i@ == input@ && r == reason,
    {
        WkError::InvalidManagedPath { input: input.to_owned(), reason }
    }

    pub fn message(message: String) -> (e: Self)
        ensures
            e == WkError::Message(message),
    {
        WkError::Message(message)
    }

    pub fn unsupported_repository(reason: String) -> (e: Self)
        ensures
            e == (WkError::UnsupportedRepository { reason }),
    {
        WkError::UnsupportedRepository { reason }
    }

    /// A failed git command: where it ran, its arguments joined by spaces,
    /// and what it printed on stderr.
    pub fn git_command(cwd: &str, args: &Vec<&str>, stderr: String) -> (e: Self)
        ensures
            e matches WkError::GitCommand { cwd: c, args: a, stderr: s } && c@ == cwd@ && a@ == joined_words(
                args@.map_values(|w: &str| w@),
            ) && s == stderr,
    {
        let mut joined = String::new();
        let mut i: usize = 0;
        while i < args.len()
            invariant
                i <= args@.len(),
                joined@ == joined_words(args@.map_values(|w: &str| w@).take(i as int)),
            decreases args@.len() - i,
        {
            proof {
                assert(args@.map_values(|w: &str| w@).take(i as int + 1).drop_last() =~= args@.map_values(
                    |w: &str| w@,
                ).take(i as int));
            }
            if i > 0 {
                joined.append(" ");
            }
            joined.append(args[i]);
            i = i + 1;
        }
        proof {
            assert(args@.map_values(|w: &str| w@).take(args@.len() as int) =~= args@.map_values(|w: &str| w@));
        }
        WkError::GitCommand { cwd: cwd.to_owned(), args: joined, stderr }
    }

    pub fn lock_busy(path: String) -> (e: Self)
        ensures
            e == (WkError::LockBusy { path }),
    {
        WkError::LockBusy { path }
    }

    /// The message of the error, as it is shown to the user.
    pub fn describe(&self) -> (s: String)
        ensures
            s@ == error_text(*self),
    {
        match self {
            WkError::NonUtf8Path(p) => cat("path is not valid UTF-8: ", p.as_str()),
            WkError::InvalidManagedPath { input, reason } => cat4("invalid managed path `", input.as_str(), "`: ", reason),
            WkError::Io(_) => String::from_str("I/O error"),
            WkError::WalkDir(_) => String::from_str("directory walk error"),
            WkError::UnsupportedRepository { reason } => cat("not a supported git repository: ", reason.as_str()),
            WkError::GitCommand { cwd, args, stderr } => cat4(
                cat3("git command failed in ", cwd.as_str(), ": git ").as_str(),
                args.as_str(),
                ": ",
                stderr.as_str(),
            ),
            WkError::TomlDeserialize(_) => String::from_str("failed to parse TOML config"),
            WkError::TomlSerialize(_) => String::from_str("failed to serialize TOML config"),
            WkError::Persist { path, .. } => cat("failed to persist atomic file at ", path.as_str()),
            WkError::LockBusy { path } => cat("another wk command holds the mutation lock: ", path.as_str()),
            WkError::Message(m) => m.clone(),
        }
    }
}

/// Words joined by single spaces.
pub open spec fn joined_words(words: Seq<Seq<char>>) -> Seq<char>
    decreases words.len(),
{
    if words.len() == 0 {
        Seq::empty()
    } else if words.len() == 1 {
        words[0]
    } else {
        joined_words(words.drop_last()) + " "@ + words.last()
    }
}

/// The text of each error.
pub open spec fn error_text(e: WkError) -> Seq<char> {
    match e {
        WkError::NonUtf8Path(p) => "path is not valid UTF-8: "@ + p@,
        WkError::InvalidManagedPath { input, reason } => "invalid managed path `"@ + input@ + "`: "@ + reason@,
        WkError::Io(_) => "I/O error"@,
        WkError::WalkDir(_) => "directory walk error"@,
        WkError::UnsupportedRepository { reason } => "not a supported git repository: "@ + reason@,
        WkError::GitCommand { cwd, args, stderr } => "git command failed in "@ + cwd@ + ": git "@ + args@ + ": "@
            + stderr@,
        WkError::TomlDeserialize(_) => "failed to parse TOML config"@,
        WkError::TomlSerialize(_) => "failed to serialize TOML config"@,
        WkError::Persist { path, .. } => "failed to persist atomic file at "@ + path@,
        WkError::LockBusy { path } => "another wk command holds the mutation lock: "@ + path@,
        WkError::Message(m) => m@,
    }
}

} // verus!
