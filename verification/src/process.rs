//! Per-group processing: derive each target file's template-source name
//! and apply the resolved bindings to file contents.
//!
//! Reading and writing the files is the caller's business; the library
//! decides, for every file of a group independently, which template
//! source belongs to it and what the substituted contents are. A file
//! whose contents could not be read is simply skipped: it never affects
//! the other files of its group.

use vstd::prelude::*;
use crate::bindings::BindingMap;
use crate::bindings::keys_of;
use crate::bindings::matcher_of;
use crate::bindings::vals_of;
use crate::configs::ConfigError;
use crate::configs::MetaOptions;
use crate::configs::Options;
use crate::engine;
use crate::engine::EngineError;
use crate::engine::Matcher;

verus! {

/// One file's derived work: where its template source lives and where
/// the substituted result goes, both relative to the tag directory.
#[derive(Debug)]
pub struct FileJob {
    pub source_name: String,
    pub target_name: String,
}

/// Derive the per-file jobs of a group: each target file is paired with
/// its template-source name, the configured naming format with the
/// file's own name substituted for the wildcard.
///
/// The naming format must be a valid escape template; a broken one is
/// reported once, for the whole group.
pub fn file_jobs(files: &Vec<String>, options: &Options, meta: &MetaOptions) -> (r: Result<
    Vec<FileJob>,
    ConfigError,
>)
    requires
        options.complete(),
        meta.complete(),
    ensures
        match r {
            Ok(jobs) => {
                &&& engine::chunks_ok(
                    options.axbind_file_format.deep_view()->0,
                    options.escape_char->0,
                )
                &&& jobs@.len() == files@.len()
                &&& forall|i: int|
                    0 <= i < files@.len() ==> (#[trigger] jobs@[i]).target_name@ == files@[i]@
                        && jobs@[i].source_name@ == engine::esc_sub(
                        options.axbind_file_format.deep_view()->0,
                        options.escape_char->0,
                        meta.wildcard_char->0,
                        files@[i]@,
                    )
            },
            Err(e) => {
                &&& e is BadTemplate
                &&& !engine::chunks_ok(
                    options.axbind_file_format.deep_view()->0,
                    options.escape_char->0,
                )
            },
        },
{
    let format = match &options.axbind_file_format {
        Some(f) => f,
        None => {
            proof {
                assert(false);
            }
            return Err(ConfigError::BadTemplate(String::new()));
        },
    };
    let escape = options.escape_char.unwrap();
    let wildcard = meta.wildcard_char.unwrap();
    if !engine::template_ok(format.as_str(), escape) {
        return Err(ConfigError::BadTemplate(format.clone()));
    }
    let n = files.len();
    let mut jobs: Vec<FileJob> = Vec::new();
    let mut i: usize = 0;
    while i < n
        invariant
            n == files@.len(),
            i <= n,
            options.complete(),
            meta.complete(),
            format@ == options.axbind_file_format.deep_view()->0,
            escape == options.escape_char->0,
            wildcard == meta.wildcard_char->0,
            engine::chunks_ok(format@, escape),
            jobs@.len() == i,
            forall|j: int|
                0 <= j < i ==> (#[trigger] jobs@[j]).target_name@ == files@[j]@
                    && jobs@[j].source_name@ == engine::esc_sub(
                    format@,
                    escape,
                    wildcard,
                    files@[j]@,
                ),
        decreases n - i,
    {
        let source_name = engine::escaped_manip(
            format.as_str(),
            escape,
            wildcard,
            files[i].as_str(),
        );
        jobs.push(FileJob { source_name, target_name: files[i].clone() });
        i = i + 1;
    }
    Ok(jobs)
}

/// Apply the group's bindings to every file's contents at once: a file
/// whose contents are absent (it could not be read) stays absent, and
/// every present file is substituted — each file independently of the
/// others.
pub fn apply_group(contents: &Vec<Option<String>>, bindings: &BindingMap) -> (r: Result<
    Vec<Option<String>>,
    EngineError,
>)
    requires
        bindings.wf(),
    ensures
        match r {
            Ok(outs) => {
                &&& outs@.len() == contents@.len()
                &&& forall|i: int|
                    0 <= i < contents@.len() ==> match (#[trigger] contents@[i]) {
                        Some(s) => outs@[i] matches Some(t) && t@ == engine::replaced(
                            keys_of(bindings.pairs()),
                            vals_of(bindings.pairs()),
                            s@,
                        ),
                        None => outs@[i] is None,
                    }
            },
            Err(e) => {
                &&& !(e is DuplicateKey)
                &&& e is EmptyKeySet <==> bindings.pairs().len() == 0
                &&& e is EmptyKey <==> bindings.pairs().len() > 0 && !engine::nonempty_seqs(
                    keys_of(bindings.pairs()),
                )
                &&& e is Build <==> bindings.pairs().len() > 0 && engine::nonempty_seqs(
                    keys_of(bindings.pairs()),
                ) && !engine::automaton_buildable(keys_of(bindings.pairs()))
            },
        },
        bindings.pairs().len() == 0 ==> r is Err,
        (bindings.pairs().len() > 0 && !engine::nonempty_seqs(keys_of(bindings.pairs())))
            ==> r is Err,
        (bindings.pairs().len() > 0 && engine::nonempty_seqs(keys_of(bindings.pairs()))
            && engine::automaton_buildable(keys_of(bindings.pairs()))) ==> r is Ok,
{
    let m: Matcher = match matcher_of(bindings) {
        Ok(m) => m,
        Err(e) => {
            return Err(e);
        },
    };
    let n = contents.len();
    let mut outs: Vec<Option<String>> = Vec::new();
    let mut i: usize = 0;
    while i < n
        invariant
            n == contents@.len(),
            i <= n,
            bindings.wf(),
            m.wf(),
            m.keys_view() == keys_of(bindings.pairs()),
            m.vals_view() == vals_of(bindings.pairs()),
            outs@.len() == i,
            forall|j: int|
                0 <= j < i ==> match (#[trigger] contents@[j]) {
                    Some(s) => outs@[j] matches Some(t) && t@ == engine::replaced(
                        keys_of(bindings.pairs()),
                        vals_of(bindings.pairs()),
                        s@,
                    ),
                    None => outs@[j] is None,
                },
        decreases n - i,
    {
        match &contents[i] {
            Some(s) => {
                let t = m.replace_all(s.as_str());
                outs.push(Some(t));
            },
            None => {
                outs.push(None);
            },
        }
        i = i + 1;
    }
    Ok(outs)
}

} // verus!
