//! Tag descriptors: what one tag directory asks for.
//!
//! A tag root is the directory's anchor: either directly a tag group, or
//! a list of paths to separate group descriptors — never both. A tag
//! group names its target files, the scheme reference to resolve, and
//! its option overrides.

use vstd::prelude::*;
use crate::configs::ConfigError;
use crate::configs::Options;
use crate::configs::opt_bool;
use crate::configs::opt_char;
use crate::configs::opt_text;
use crate::doc::Context;
use crate::doc::DocTable;
use crate::doc::DocVal;
use crate::doc::DocValue;
use crate::doc::TableGetError;
use crate::doc::all_text;
use crate::doc::extract_array_strings;
use crate::doc::get_list;
use crate::doc::get_table;
use crate::doc::get_text;
use crate::doc::table_lookup;
use crate::doc::text_outcome;
use crate::doc::texts_of;

verus! {

/// A reference to a scheme: its name, then remap layers and transform
/// functions to apply, each in the caller's order.
#[derive(Debug)]
pub struct SchemeSpec {
    pub scheme: String,
    pub remaps: Vec<String>,
    pub functions: Vec<String>,
}

/// One unit of work: target files, a scheme reference, and option
/// overrides.
#[derive(Debug)]
pub struct TagGroup {
    pub files: Vec<String>,
    pub scheme_spec: SchemeSpec,
    pub options: Options,
}

/// A directory's anchor descriptor: its own table, and either nothing
/// more (the table is itself the tag group) or the paths of the group
/// descriptors it points at.
#[derive(Debug)]
pub struct TagRoot {
    pub path: String,
    pub main: DocTable,
    pub groups: Option<Vec<String>>,
}

/// Why a tag root could not be built.
#[derive(Debug)]
pub enum GenerateErr {
    /// The descriptor file itself could not be read or parsed.
    Root(String),
    /// A key of the descriptor is missing or mistyped.
    TableGet(TableGetError),
    /// The descriptor declares both direct files and a groups list.
    FilesAndGroupExist(String),
}

/// An optional list-of-strings entry denotes: `None` for a shape error,
/// `Some(None)` for an absent key, `Some(Some(ss))` for the strings.
pub open spec fn opt_texts(tv: Seq<(Seq<char>, DocVal)>, key: Seq<char>) -> Option<
    Option<Seq<Seq<char>>>,
> {
    match table_lookup(tv, key) {
        None => Some(None),
        Some(DocVal::List(items)) => if all_text(items) {
            Some(Some(texts_of(items)))
        } else {
            None
        },
        Some(_) => None,
    }
}

impl TagRoot {
    /// Build a directory's tag root from its parsed anchor descriptor.
    ///
    /// The `groups` key, when present, must be a list of strings: the
    /// paths of the group descriptors, which the caller then loads.
    /// Declaring both `files` and `groups` is a structural error,
    /// raised here, before any scheme is resolved.
    pub fn generate_from_dir(main: DocTable, path: String) -> (r: Result<TagRoot, GenerateErr>)
        ensures
            match r {
                Ok(tr) => {
                    &&& tr.path@ == path@
                    &&& tr.main@ == main@
                    &&& match opt_texts(main@, "groups"@) {
                        Some(None) => tr.groups is None,
                        Some(Some(gs)) => tr.groups matches Some(v) && v.deep_view() == gs,
                        None => false,
                    }
                    &&& !(table_lookup(main@, "files"@) is Some && table_lookup(main@, "groups"@)
                        is Some)
                },
                Err(GenerateErr::FilesAndGroupExist(p)) => {
                    &&& table_lookup(main@, "files"@) is Some
                    &&& opt_texts(main@, "groups"@) matches Some(Some(_))
                    &&& p@ == path@
                },
                Err(GenerateErr::TableGet(_)) => opt_texts(main@, "groups"@) is None,
                Err(GenerateErr::Root(_)) => false,
            },
    {
        let ctx = Context::from_root(path.clone());
        let gkey = String::from_str("groups");
        let groups: Option<Vec<String>> = match main.get(&gkey) {
            None => None,
            Some(DocValue::List(items)) => {
                match extract_array_strings(items, &ctx.with(&gkey)) {
                    Ok(ss) => Some(ss),
                    Err(e) => {
                        return Err(GenerateErr::TableGet(e));
                    },
                }
            },
            Some(_) => {
                return Err(
                    GenerateErr::TableGet(
                        TableGetError {
                            kind: crate::doc::GetErrKind::WrongType,
                            context: ctx.with(&gkey),
                        },
                    ),
                );
            },
        };
        let fkey = String::from_str("files");
        if groups.is_some() {
            match main.get(&fkey) {
                Some(_) => {
                    return Err(GenerateErr::FilesAndGroupExist(path));
                },
                None => {},
            }
        }
        Ok(TagRoot { path, main, groups })
    }
}

/// The whole tag-group descriptor is well-shaped: files a string list, a
/// scheme table with a string name and optional string-list remaps and
/// functions, options absent or an override table of the right types.
pub open spec fn group_plain(tv: Seq<(Seq<char>, DocVal)>) -> bool {
    &&& opt_texts(tv, "files"@) matches Some(Some(_))
    &&& table_lookup(tv, "scheme"@) matches Some(DocVal::Table(st)) && (text_outcome(st, "name"@)
        is Some) && (opt_texts(st, "remaps"@) is Some) && (opt_texts(st, "functions"@) is Some)
    &&& match table_lookup(tv, "options"@) {
        None => true,
        Some(DocVal::Table(ot)) => (opt_text(ot, "key_format"@) is Some) && (opt_char(
            ot,
            "escape_char"@,
        ) is Some) && (opt_text(ot, "axbind_file_format"@) is Some) && (opt_bool(
            ot,
            "sync_write"@,
        ) is Some),
        Some(_) => false,
    }
}

impl TagGroup {
    /// Read one tag group: its files, its scheme reference (name, remap
    /// order, function order), and its option overrides.
    pub fn from_table(table: &DocTable, ctx: &Context) -> (r: Result<TagGroup, ConfigError>)
        ensures
            r matches Ok(g) ==> {
                &&& opt_texts(table@, "files"@) == Some(Some(g.files.deep_view()))
                &&& table_lookup(table@, "scheme"@) matches Some(DocVal::Table(st)) && ({
                    &&& text_outcome(st, "name"@) == Some(g.scheme_spec.scheme@)
                    &&& match opt_texts(st, "remaps"@) {
                        Some(None) => g.scheme_spec.remaps.deep_view().len() == 0,
                        Some(Some(rs)) => g.scheme_spec.remaps.deep_view() == rs,
                        None => false,
                    }
                    &&& match opt_texts(st, "functions"@) {
                        Some(None) => g.scheme_spec.functions.deep_view().len() == 0,
                        Some(Some(fs)) => g.scheme_spec.functions.deep_view() == fs,
                        None => false,
                    }
                })
                &&& match table_lookup(table@, "options"@) {
                    None => g.options.key_format is None && g.options.escape_char is None
                        && g.options.axbind_file_format is None && g.options.sync_write is None,
                    Some(DocVal::Table(ot)) => {
                        &&& opt_text(ot, "key_format"@) == Some(g.options.key_format.deep_view())
                        &&& opt_char(ot, "escape_char"@) == Some(g.options.escape_char)
                        &&& opt_text(ot, "axbind_file_format"@) == Some(
                            g.options.axbind_file_format.deep_view(),
                        )
                        &&& opt_bool(ot, "sync_write"@) == Some(g.options.sync_write)
                    },
                    Some(_) => false,
                }
            },
            group_plain(table@) ==> r is Ok,
    {
        let fkey = String::from_str("files");
        let files = match get_list(table, ctx, &fkey) {
            Ok(items) => match extract_array_strings(items, &ctx.with(&fkey)) {
                Ok(ss) => ss,
                Err(e) => {
                    return Err(ConfigError::TableGet(e));
                },
            },
            Err(e) => {
                return Err(ConfigError::TableGet(e));
            },
        };
        let skey = String::from_str("scheme");
        let scheme_table = match get_table(table, ctx, &skey) {
            Ok(t) => t,
            Err(e) => {
                return Err(ConfigError::TableGet(e));
            },
        };
        let sctx = ctx.with(&skey);
        let okey = String::from_str("options");
        let options = match table.get(&okey) {
            None => Options::default(),
            Some(DocValue::Table(ot)) => {
                match Options::from_table(ot, &ctx.with(&okey)) {
                    Ok(o) => o,
                    Err(e) => {
                        return Err(e);
                    },
                }
            },
            Some(_) => {
                return Err(
                    ConfigError::TableGet(
                        TableGetError {
                            kind: crate::doc::GetErrKind::WrongType,
                            context: ctx.with(&okey),
                        },
                    ),
                );
            },
        };
        let rkey = String::from_str("remaps");
        let remaps = match scheme_table.get(&rkey) {
            None => Vec::new(),
            Some(DocValue::List(items)) => {
                match extract_array_strings(items, &sctx.with(&rkey)) {
                    Ok(ss) => ss,
                    Err(e) => {
                        return Err(ConfigError::TableGet(e));
                    },
                }
            },
            Some(_) => {
                return Err(
                    ConfigError::TableGet(
                        TableGetError {
                            kind: crate::doc::GetErrKind::WrongType,
                            context: sctx.with(&rkey),
                        },
                    ),
                );
            },
        };
        let fnkey = String::from_str("functions");
        let functions = match scheme_table.get(&fnkey) {
            None => Vec::new(),
            Some(DocValue::List(items)) => {
                match extract_array_strings(items, &sctx.with(&fnkey)) {
                    Ok(ss) => ss,
                    Err(e) => {
                        return Err(ConfigError::TableGet(e));
                    },
                }
            },
            Some(_) => {
                return Err(
                    ConfigError::TableGet(
                        TableGetError {
                            kind: crate::doc::GetErrKind::WrongType,
                            context: sctx.with(&fnkey),
                        },
                    ),
                );
            },
        };
        let scheme = match get_text(scheme_table, &sctx, &String::from_str("name")) {
            Ok(s) => s.clone(),
            Err(e) => {
                return Err(ConfigError::TableGet(e));
            },
        };
        Ok(TagGroup { files, options, scheme_spec: SchemeSpec { scheme, remaps, functions } })
    }
}

} // verus!
