//! Settings, their validation and argument splitting.

use crate::cmd::head::client::{parse_url, url_parses};
use crate::paths::{normalize_container, normalized_container, PathError};
use crate::text::{has_prefix, starts_with, views_of};
use crate::types::copy_strings;
use vstd::prelude::*;

verus! {

broadcast use vstd::string::group_string_axioms;

/// The settings file, as read (`settings.toml`).
#[derive(Debug)]
pub struct Settings {
    pub workers: Vec<String>,
    pub folders: Folders,
    pub crf_search: CrfSearch,
    pub encoder: Encoder,
}

#[derive(Debug)]
pub struct Folders {
    pub input_folder: String,
    pub output_folder: String,
}

#[derive(Debug)]
pub struct CrfSearch {
    pub ab_av1_arguments: String,
}

#[derive(Debug)]
pub struct Encoder {
    pub ffmpeg_arguments: String,
    /// Empty when the settings leave it out.
    pub ffmpeg_container: String,
}

/// Validated configuration ready to use.
#[derive(Debug)]
pub struct Config {
    pub workers: Vec<String>,
    pub input_folder: String,
    pub output_folder: String,
    pub ab_av1_args: Vec<String>,
    pub ffmpeg_args: Vec<String>,
    pub container: String,
}

/// Why settings were refused.
#[derive(Debug)]
pub enum ConfigError {
    /// The worker list is empty.
    NoWorkers,
    /// A worker address is not an absolute URL.
    InvalidWorkerUrl(String),
    /// The container is refused.
    Container(PathError),
    /// An argument string has an unclosed quote.
    UnclosedQuotes,
}

/// The words shell syntax makes of a text (quote removal, backslash
/// escapes, `#` comments; no expansion), or `None` when a quote is left
/// open.
pub uninterp spec fn shell_split_spec(text: Seq<char>) -> Option<Seq<Seq<char>>>;

/// `shell_words::ParseError`, carried through opaque.
#[verifier::external_type_specification]
#[verifier::external_body]
pub struct ExShellWordsParseError(shell_words::ParseError);

/// `shell_words::split`: the result is the name above applied to the text.
#[verifier::external_body]
fn shell_split(text: &str) -> (r: Result<Vec<String>, shell_words::ParseError>)
    ensures
        r is Ok <==> shell_split_spec(text@) is Some,
        r matches Ok(v) ==> views_of(v@) == shell_split_spec(text@)->0,
{
    shell_words::split(text)
}

/// Splits an argument string with shell syntax, without invoking a shell.
pub fn split_args(s: &str) -> (r: Result<Vec<String>, ConfigError>)
    ensures
        shell_split_spec(s@) matches Some(words) ==> (r matches Ok(v) && views_of(v@) == words),
        shell_split_spec(s@) is None ==> (r matches Err(e) && e is UnclosedQuotes),
{
    match shell_split(s) {
        Ok(v) => Ok(v),
        Err(_) => Err(ConfigError::UnclosedQuotes),
    }
}

/// An argument that fixes quality or rate: `-crf` or `-b:v`, alone or
/// with a value attached (`-crf=24`, `-b:v=2M`).
pub open spec fn fixes_quality(arg: Seq<char>) -> bool {
    starts_with(arg, seq!['-', 'c', 'r', 'f']) || starts_with(arg, seq!['-', 'b', ':', 'v'])
}

/// Whether the ffmpeg arguments already fix quality or rate, so that no
/// CRF search is needed.
pub fn args_fixed_quality(args: &[String]) -> (r: bool)
    ensures
        r == exists|i: int| 0 <= i < args@.len() && fixes_quality(#[trigger] args@[i]@),
{
    proof {
        reveal_strlit("-crf");
        reveal_strlit("-b:v");
    }
    assert("-crf"@ =~= seq!['-', 'c', 'r', 'f']);
    assert("-b:v"@ =~= seq!['-', 'b', ':', 'v']);
    let mut i: usize = 0;
    while i < args.len()
        invariant
            i <= args@.len(),
            "-crf"@ == seq!['-', 'c', 'r', 'f'],
            "-b:v"@ == seq!['-', 'b', ':', 'v'],
            forall|j: int| 0 <= j < i ==> !fixes_quality(#[trigger] args@[j]@),
        decreases args@.len() - i,
    {
        let a = args[i].as_str();
        if has_prefix(a, "-crf") || has_prefix(a, "-b:v") {
            assert(fixes_quality(args@[i as int]@));
            return true;
        }
        i += 1;
    }
    false
}

impl Settings {
    /// Checks the worker list: not empty, and each address an absolute URL.
    pub fn validate_workers(&self) -> (r: Result<(), ConfigError>)
        ensures
            self.workers@.len() == 0 ==> (r matches Err(e) && e is NoWorkers),
            self.workers@.len() > 0 && (forall|i: int|
                0 <= i < self.workers@.len() ==> url_parses(#[trigger] self.workers@[i]@))
                ==> r is Ok,
            self.workers@.len() > 0 && !(forall|i: int|
                0 <= i < self.workers@.len() ==> url_parses(#[trigger] self.workers@[i]@)) ==> (
            r matches Err(e) && e matches ConfigError::InvalidWorkerUrl(w) && exists|i: int|
                0 <= i < self.workers@.len() && !url_parses(self.workers@[i]@) && w@
                    == #[trigger] self.workers@[i]@ && forall|j: int|
                    0 <= j < i ==> url_parses(self.workers@[j]@)),
    {
        if self.workers.len() == 0 {
            return Err(ConfigError::NoWorkers);
        }
        let mut i: usize = 0;
        while i < self.workers.len()
            invariant
                i <= self.workers@.len(),
                forall|j: int| 0 <= j < i ==> url_parses(#[trigger] self.workers@[j]@),
            decreases self.workers@.len() - i,
        {
            if parse_url(self.workers[i].as_str()).is_none() {
                assert(!url_parses(self.workers@[i as int]@));
                return Err(ConfigError::InvalidWorkerUrl(self.workers[i].clone()));
            }
            i += 1;
        }
        Ok(())
    }

    /// The configuration, once the workers and folders have been checked:
    /// the container normalized and both argument strings split.
    pub fn into_config(self) -> (r: Result<Config, ConfigError>)
        ensures
            normalized_container(self.encoder.ffmpeg_container@) is None ==> (r matches Err(e)
                && e matches ConfigError::Container(p) && p matches PathError::InvalidContainer(c)
                && c@ == self.encoder.ffmpeg_container@),
            normalized_container(self.encoder.ffmpeg_container@) is Some && shell_split_spec(
                self.crf_search.ab_av1_arguments@,
            ) is None ==> (r matches Err(e) && e is UnclosedQuotes),
            normalized_container(self.encoder.ffmpeg_container@) is Some && shell_split_spec(
                self.crf_search.ab_av1_arguments@,
            ) is Some && shell_split_spec(self.encoder.ffmpeg_arguments@) is None ==> (r matches Err(
                e,
            ) && e is UnclosedQuotes),
            r matches Ok(c) ==> {
                &&& normalized_container(self.encoder.ffmpeg_container@) == Some(c.container@)
                &&& shell_split_spec(self.crf_search.ab_av1_arguments@) == Some(
                    views_of(c.ab_av1_args@),
                )
                &&& shell_split_spec(self.encoder.ffmpeg_arguments@) == Some(
                    views_of(c.ffmpeg_args@),
                )
                &&& c.workers@ == self.workers@
                &&& c.input_folder == self.folders.input_folder
                &&& c.output_folder == self.folders.output_folder
            },
            normalized_container(self.encoder.ffmpeg_container@) is Some && shell_split_spec(
                self.crf_search.ab_av1_arguments@,
            ) is Some && shell_split_spec(self.encoder.ffmpeg_arguments@) is Some ==> r is Ok,
    {
        let container = match normalize_container(self.encoder.ffmpeg_container.as_str()) {
            Ok(c) => c,
            Err(e) => {
                return Err(ConfigError::Container(e));
            },
        };
        let ab_av1_args = match split_args(self.crf_search.ab_av1_arguments.as_str()) {
            Ok(v) => v,
            Err(e) => {
                return Err(e);
            },
        };
        let ffmpeg_args = match split_args(self.encoder.ffmpeg_arguments.as_str()) {
            Ok(v) => v,
            Err(e) => {
                return Err(e);
            },
        };
        Ok(
            Config {
                workers: self.workers,
                input_folder: self.folders.input_folder,
                output_folder: self.folders.output_folder,
                ab_av1_args,
                ffmpeg_args,
                container,
            },
        )
    }
}

impl Clone for Config {
    fn clone(&self) -> (r: Self)
        ensures
            r.workers@ == self.workers@,
            r.input_folder == self.input_folder,
            r.output_folder == self.output_folder,
            r.ab_av1_args@ == self.ab_av1_args@,
            r.ffmpeg_args@ == self.ffmpeg_args@,
            r.container == self.container,
    {
        Config {
            workers: copy_strings(&self.workers),
            input_folder: self.input_folder.clone(),
            output_folder: self.output_folder.clone(),
            ab_av1_args: copy_strings(&self.ab_av1_args),
            ffmpeg_args: copy_strings(&self.ffmpeg_args),
            container: self.container.clone(),
        }
    }
}

} // verus!
