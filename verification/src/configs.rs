//! Configuration types: errors, option layers, meta options, the master
//! configuration, and external transform definitions.

use vstd::prelude::*;
use vstd::string::StrSliceExecFns;
use crate::doc::Context;
use crate::doc::DocTable;
use crate::doc::DocValue;
use crate::doc::DocVal;
use crate::doc::GetErrKind;
use crate::doc::TableGetError;
use crate::doc::get_table;
use crate::doc::get_text;
use crate::doc::table_lookup;
use crate::doc::text_outcome;
use crate::engine;

verus! {

/// Everything that can go wrong while reading configuration and scheme
/// descriptors.
#[derive(Debug)]
pub enum ConfigError {
    /// A typed table lookup failed.
    TableGet(TableGetError),
    /// A lookup failed inside an included scheme; the first context is the
    /// place that asked for the inclusion.
    TableRefExpect(Context, TableGetError),
    /// A scheme name did not resolve; the context is the place that
    /// referenced it.
    SchemeExpected(Context, String),
    /// A value that must be exactly one character long is not.
    NotOneChar(Context),
    /// A chain of inclusions returned to a scheme and path it was already
    /// resolving.
    Cycle(Context, String),
    /// A naming or command template cannot be split on its escape
    /// character (it is empty, or an escape opens, ends, or doubles up
    /// in it).
    BadTemplate(String),
}

impl From<TableGetError> for ConfigError {
    fn from(value: TableGetError) -> (r: Self) {
        ConfigError::TableGet(value)
    }
}

impl vstd::std_specs::convert::FromSpecImpl<TableGetError> for ConfigError {
    open spec fn obeys_from_spec() -> bool {
        true
    }

    open spec fn from_spec(value: TableGetError) -> Self {
        ConfigError::TableGet(value)
    }
}

/// What an optional text entry denotes: `None` for a type error,
/// `Some(None)` for an absent key, `Some(Some(s))` for text `s`.
pub open spec fn opt_text(tv: Seq<(Seq<char>, DocVal)>, key: Seq<char>) -> Option<
    Option<Seq<char>>,
> {
    match table_lookup(tv, key) {
        None => Some(None),
        Some(DocVal::Text(s)) => Some(Some(s)),
        Some(_) => None,
    }
}

/// What an optional one-character entry denotes.
pub open spec fn opt_char(tv: Seq<(Seq<char>, DocVal)>, key: Seq<char>) -> Option<Option<char>> {
    match table_lookup(tv, key) {
        None => Some(None),
        Some(DocVal::Text(s)) => if s.len() == 1 {
            Some(Some(s[0]))
        } else {
            None
        },
        Some(_) => None,
    }
}

/// What an optional boolean entry denotes.
pub open spec fn opt_bool(tv: Seq<(Seq<char>, DocVal)>, key: Seq<char>) -> Option<Option<bool>> {
    match table_lookup(tv, key) {
        None => Some(None),
        Some(DocVal::Bool(b)) => Some(Some(b)),
        Some(_) => None,
    }
}

/// What a required boolean entry denotes.
pub open spec fn req_bool(tv: Seq<(Seq<char>, DocVal)>, key: Seq<char>) -> Option<bool> {
    match table_lookup(tv, key) {
        Some(DocVal::Bool(b)) => Some(b),
        _ => None,
    }
}

/// What a required one-character entry denotes.
pub open spec fn req_char(tv: Seq<(Seq<char>, DocVal)>, key: Seq<char>) -> Option<char> {
    match table_lookup(tv, key) {
        Some(DocVal::Text(s)) => if s.len() == 1 {
            Some(s[0])
        } else {
            None
        },
        _ => None,
    }
}

/// The one-character text value under `key`.
///
/// Exactly one character is required: a longer or shorter string is its
/// own error, distinct from a missing key or a wrong type.
pub fn extract_char(t: &DocTable, ctx: &Context, key: &String) -> (r: Result<char, ConfigError>)
    ensures
        match r {
            Ok(c) => table_lookup(t@, key@) == Some(DocVal::Text(seq![c])),
            Err(ConfigError::TableGet(e)) => {
                &&& !(table_lookup(t@, key@) matches Some(DocVal::Text(_)))
                &&& e.kind is NoKey <==> table_lookup(t@, key@) is None
            },
            Err(ConfigError::NotOneChar(_)) => (table_lookup(t@, key@) matches Some(
                DocVal::Text(s),
            ) && s.len() != 1),
            Err(_) => false,
        },
{
    let s = match get_text(t, ctx, key) {
        Ok(s) => s,
        Err(e) => {
            return Err(ConfigError::TableGet(e));
        },
    };
    if s.as_str().unicode_len() == 1 {
        let c = s.as_str().get_char(0);
        proof {
            assert(s@ =~= seq![c]);
        }
        Ok(c)
    } else {
        Err(ConfigError::NotOneChar(ctx.with(key)))
    }
}

/// The one-character text value under `key`, or `None` when the key is
/// absent.
pub fn extract_char_optional(t: &DocTable, ctx: &Context, key: &String) -> (r: Result<
    Option<char>,
    ConfigError,
>)
    ensures
        match r {
            Ok(oc) => opt_char(t@, key@) == Some(oc),
            Err(_) => opt_char(t@, key@) is None,
        },
{
    match t.get(key) {
        None => Ok(None),
        Some(_) => match extract_char(t, ctx, key) {
            Ok(c) => Ok(Some(c)),
            Err(e) => Err(e),
        },
    }
}

/// The text value under `key`, or `None` when the key is absent.
pub fn extract_text_optional<'a>(t: &'a DocTable, ctx: &Context, key: &String) -> (r: Result<
    Option<&'a String>,
    ConfigError,
>)
    ensures
        match r {
            Ok(Some(s)) => opt_text(t@, key@) == Some(Some(s@)),
            Ok(None) => opt_text(t@, key@) == Some(None::<Seq<char>>),
            Err(_) => opt_text(t@, key@) is None,
        },
{
    match t.get(key) {
        None => Ok(None),
        Some(_) => match get_text(t, ctx, key) {
            Ok(s) => Ok(Some(s)),
            Err(e) => Err(ConfigError::TableGet(e)),
        },
    }
}

/// The boolean value under `key`, or `None` when the key is absent.
pub fn extract_bool_optional(t: &DocTable, ctx: &Context, key: &String) -> (r: Result<
    Option<bool>,
    ConfigError,
>)
    ensures
        match r {
            Ok(ob) => opt_bool(t@, key@) == Some(ob),
            Err(_) => opt_bool(t@, key@) is None,
        },
{
    match t.get(key) {
        None => Ok(None),
        Some(DocValue::Bool(b)) => Ok(Some(*b)),
        Some(_) => Err(
            ConfigError::TableGet(
                TableGetError { kind: GetErrKind::WrongType, context: ctx.with(key) },
            ),
        ),
    }
}

/// Per-group option overrides and their global defaults: every field
/// optional, layered present-wins.
#[derive(Debug)]
pub struct Options {
    /// How a binding key is written in target files.
    pub key_format: Option<String>,
    /// The escape character of file-name templates.
    pub escape_char: Option<char>,
    /// The naming format of a file's template source.
    pub axbind_file_format: Option<String>,
    /// Force a durable flush after each write.
    pub sync_write: Option<bool>,
}

impl Options {
    /// All four fields are present.
    pub open spec fn complete(&self) -> bool {
        &&& self.key_format is Some
        &&& self.escape_char is Some
        &&& self.axbind_file_format is Some
        &&& self.sync_write is Some
    }

    /// Layer `over` on top of `self`: a present field of `over` wins, an
    /// absent one falls back to `self`. Present never loses to absent.
    pub fn overriden_by(self, over: Options) -> (r: Options)
        ensures
            r.key_format.deep_view() == if over.key_format is Some {
                over.key_format.deep_view()
            } else {
                self.key_format.deep_view()
            },
            r.escape_char == if over.escape_char is Some {
                over.escape_char
            } else {
                self.escape_char
            },
            r.axbind_file_format.deep_view() == if over.axbind_file_format is Some {
                over.axbind_file_format.deep_view()
            } else {
                self.axbind_file_format.deep_view()
            },
            r.sync_write == if over.sync_write is Some {
                over.sync_write
            } else {
                self.sync_write
            },
            self.complete() ==> r.complete(),
    {
        Options {
            key_format: match over.key_format {
                Some(v) => Some(v),
                None => self.key_format,
            },
            escape_char: match over.escape_char {
                Some(v) => Some(v),
                None => self.escape_char,
            },
            axbind_file_format: match over.axbind_file_format {
                Some(v) => Some(v),
                None => self.axbind_file_format,
            },
            sync_write: match over.sync_write {
                Some(v) => Some(v),
                None => self.sync_write,
            },
        }
    }

    /// Read an override layer: every field optional.
    pub fn from_table(t: &DocTable, ctx: &Context) -> (r: Result<Options, ConfigError>)
        ensures
            match r {
                Ok(o) => {
                    &&& opt_text(t@, "key_format"@) == Some(o.key_format.deep_view())
                    &&& opt_char(t@, "escape_char"@) == Some(o.escape_char)
                    &&& opt_text(t@, "axbind_file_format"@) == Some(
                        o.axbind_file_format.deep_view(),
                    )
                    &&& opt_bool(t@, "sync_write"@) == Some(o.sync_write)
                },
                Err(_) => {
                    ||| opt_text(t@, "key_format"@) is None
                    ||| opt_char(t@, "escape_char"@) is None
                    ||| opt_text(t@, "axbind_file_format"@) is None
                    ||| opt_bool(t@, "sync_write"@) is None
                },
            },
    {
        let key_format = match extract_text_optional(t, ctx, &String::from_str("key_format")) {
            Ok(Some(s)) => Some(s.clone()),
            Ok(None) => None,
            Err(e) => {
                return Err(e);
            },
        };
        let escape_char = match extract_char_optional(t, ctx, &String::from_str("escape_char")) {
            Ok(v) => v,
            Err(e) => {
                return Err(e);
            },
        };
        let axbind_file_format = match extract_text_optional(
            t,
            ctx,
            &String::from_str("axbind_file_format"),
        ) {
            Ok(Some(s)) => Some(s.clone()),
            Ok(None) => None,
            Err(e) => {
                return Err(e);
            },
        };
        let sync_write = match extract_bool_optional(t, ctx, &String::from_str("sync_write")) {
            Ok(v) => v,
            Err(e) => {
                return Err(e);
            },
        };
        Ok(Options { key_format, escape_char, axbind_file_format, sync_write })
    }

    /// Read an override layer from an optional table: no table means no
    /// overrides.
    pub fn from_optional_table(t: Option<&DocTable>, ctx: &Context) -> (r: Result<
        Options,
        ConfigError,
    >)
        ensures
            match t {
                None => r matches Ok(o) && o.key_format is None && o.escape_char is None
                    && o.axbind_file_format is None && o.sync_write is None,
                Some(tab) => {
                    match r {
                        Ok(o) => {
                            &&& opt_text(tab@, "key_format"@) == Some(o.key_format.deep_view())
                            &&& opt_char(tab@, "escape_char"@) == Some(o.escape_char)
                            &&& opt_text(tab@, "axbind_file_format"@) == Some(
                                o.axbind_file_format.deep_view(),
                            )
                            &&& opt_bool(tab@, "sync_write"@) == Some(o.sync_write)
                        },
                        Err(_) => {
                            ||| opt_text(tab@, "key_format"@) is None
                            ||| opt_char(tab@, "escape_char"@) is None
                            ||| opt_text(tab@, "axbind_file_format"@) is None
                            ||| opt_bool(tab@, "sync_write"@) is None
                        },
                    }
                },
            },
    {
        match t {
            Some(tab) => Options::from_table(tab, ctx),
            None => Ok(Options::default()),
        }
    }

    /// Read the global defaults: every field required, since these are
    /// the base of the override chain.
    pub fn from_table_forced(t: &DocTable, ctx: &Context) -> (r: Result<Options, ConfigError>)
        ensures
            match r {
                Ok(o) => {
                    &&& o.complete()
                    &&& text_outcome(t@, "key_format"@) == Some(o.key_format.deep_view()->0)
                    &&& req_char(t@, "escape_char"@) == o.escape_char
                    &&& text_outcome(t@, "axbind_file_format"@) == Some(
                        o.axbind_file_format.deep_view()->0,
                    )
                    &&& o.sync_write == req_bool(t@, "sync_write"@)
                },
                Err(_) => {
                    ||| text_outcome(t@, "key_format"@) is None
                    ||| req_char(t@, "escape_char"@) is None
                    ||| text_outcome(t@, "axbind_file_format"@) is None
                    ||| req_bool(t@, "sync_write"@) is None
                },
            },
    {
        let key_format = match get_text(t, ctx, &String::from_str("key_format")) {
            Ok(s) => s.clone(),
            Err(e) => {
                return Err(ConfigError::TableGet(e));
            },
        };
        let escape_char = match extract_char(t, ctx, &String::from_str("escape_char")) {
            Ok(c) => c,
            Err(e) => {
                return Err(e);
            },
        };
        let axbind_file_format = match get_text(t, ctx, &String::from_str("axbind_file_format")) {
            Ok(s) => s.clone(),
            Err(e) => {
                return Err(ConfigError::TableGet(e));
            },
        };
        let skey = String::from_str("sync_write");
        let sync_write = match t.get(&skey) {
            Some(DocValue::Bool(b)) => *b,
            Some(_) => {
                return Err(
                    ConfigError::TableGet(
                        TableGetError { kind: GetErrKind::WrongType, context: ctx.with(&skey) },
                    ),
                );
            },
            None => {
                return Err(
                    ConfigError::TableGet(
                        TableGetError { kind: GetErrKind::NoKey, context: ctx.with(&skey) },
                    ),
                );
            },
        };
        Ok(
            Options {
                key_format: Some(key_format),
                escape_char: Some(escape_char),
                axbind_file_format: Some(axbind_file_format),
                sync_write: Some(sync_write),
            },
        )
    }
}

impl Default for Options {
    fn default() -> (r: Options)
        ensures
            r.key_format is None,
            r.escape_char is None,
            r.axbind_file_format is None,
            r.sync_write is None,
    {
        Options { key_format: None, escape_char: None, axbind_file_format: None, sync_write: None }
    }
}

impl Clone for Options {
    fn clone(&self) -> (r: Self)
        ensures
            r.key_format.deep_view() == self.key_format.deep_view(),
            r.escape_char == self.escape_char,
            r.axbind_file_format.deep_view() == self.axbind_file_format.deep_view(),
            r.sync_write == self.sync_write,
    {
        Options {
            key_format: match &self.key_format {
                Some(s) => Some(s.clone()),
                None => None,
            },
            escape_char: self.escape_char,
            axbind_file_format: match &self.axbind_file_format {
                Some(s) => Some(s.clone()),
                None => None,
            },
            sync_write: self.sync_write,
        }
    }
}

/// The two markers that external transform commands are written with:
/// an internal escape character and a wildcard character.
#[derive(Debug)]
pub struct MetaOptions {
    pub internal_escape_char: Option<char>,
    pub wildcard_char: Option<char>,
}

impl MetaOptions {
    pub open spec fn complete(&self) -> bool {
        self.internal_escape_char is Some && self.wildcard_char is Some
    }

    /// Read meta options with both fields optional.
    pub fn from_table(t: &DocTable, ctx: &Context) -> (r: Result<MetaOptions, ConfigError>)
        ensures
            match r {
                Ok(o) => {
                    &&& opt_char(t@, "internal_escape_char"@) == Some(o.internal_escape_char)
                    &&& opt_char(t@, "wildcard_char"@) == Some(o.wildcard_char)
                },
                Err(_) => {
                    ||| opt_char(t@, "internal_escape_char"@) is None
                    ||| opt_char(t@, "wildcard_char"@) is None
                },
            },
    {
        let internal_escape_char = match extract_char_optional(
            t,
            ctx,
            &String::from_str("internal_escape_char"),
        ) {
            Ok(v) => v,
            Err(e) => {
                return Err(e);
            },
        };
        let wildcard_char = match extract_char_optional(
            t,
            ctx,
            &String::from_str("wildcard_char"),
        ) {
            Ok(v) => v,
            Err(e) => {
                return Err(e);
            },
        };
        Ok(MetaOptions { internal_escape_char, wildcard_char })
    }

    /// Read meta options with both fields required.
    pub fn from_table_forced(t: &DocTable, ctx: &Context) -> (r: Result<MetaOptions, ConfigError>)
        ensures
            match r {
                Ok(o) => {
                    &&& o.complete()
                    &&& req_char(t@, "internal_escape_char"@) == o.internal_escape_char
                    &&& req_char(t@, "wildcard_char"@) == o.wildcard_char
                },
                Err(_) => {
                    ||| req_char(t@, "internal_escape_char"@) is None
                    ||| req_char(t@, "wildcard_char"@) is None
                },
            },
    {
        let internal_escape_char = match extract_char(
            t,
            ctx,
            &String::from_str("internal_escape_char"),
        ) {
            Ok(c) => c,
            Err(e) => {
                return Err(e);
            },
        };
        let wildcard_char = match extract_char(t, ctx, &String::from_str("wildcard_char")) {
            Ok(c) => c,
            Err(e) => {
                return Err(e);
            },
        };
        Ok(
            MetaOptions {
                internal_escape_char: Some(internal_escape_char),
                wildcard_char: Some(wildcard_char),
            },
        )
    }
}

impl Clone for MetaOptions {
    fn clone(&self) -> (r: Self)
        ensures
            r.internal_escape_char == self.internal_escape_char,
            r.wildcard_char == self.wildcard_char,
    {
        MetaOptions {
            internal_escape_char: self.internal_escape_char,
            wildcard_char: self.wildcard_char,
        }
    }
}

/// The master configuration: where schemes live, the meta options, and
/// the global option defaults.
#[derive(Debug)]
pub struct MasterConfig {
    pub scheme_dir: String,
    pub meta_options: MetaOptions,
    pub options: Options,
}

/// The master configuration table is fully well-shaped: success is owed
/// on exactly these tables.
pub open spec fn master_plain(tv: Seq<(Seq<char>, DocVal)>) -> bool {
    &&& text_outcome(tv, "scheme_dir"@) is Some
    &&& table_lookup(tv, "metaoptions"@) matches Some(DocVal::Table(mt)) && (req_char(
        mt,
        "internal_escape_char"@,
    ) is Some) && (req_char(mt, "wildcard_char"@) is Some)
    &&& table_lookup(tv, "options"@) matches Some(DocVal::Table(ot)) && (text_outcome(
        ot,
        "key_format"@,
    ) is Some) && (req_char(ot, "escape_char"@) is Some) && (text_outcome(
        ot,
        "axbind_file_format"@,
    ) is Some) && (req_bool(ot, "sync_write"@) is Some)
}

impl MasterConfig {
    /// Read the master configuration. `scheme_dir`, the full meta options
    /// and the full option defaults are all required.
    pub fn from_table(t: &DocTable, ctx: &Context) -> (r: Result<MasterConfig, ConfigError>)
        ensures
            master_plain(t@) ==> r is Ok,
            r matches Ok(m) ==> {
                &&& text_outcome(t@, "scheme_dir"@) == Some(m.scheme_dir@)
                &&& table_lookup(t@, "metaoptions"@) matches Some(DocVal::Table(mt))
                    && req_char(mt, "internal_escape_char"@) == m.meta_options.internal_escape_char
                    && req_char(mt, "wildcard_char"@) == m.meta_options.wildcard_char
                &&& m.meta_options.complete()
                &&& table_lookup(t@, "options"@) matches Some(DocVal::Table(ot)) && text_outcome(
                    ot,
                    "key_format"@,
                ) == Some(m.options.key_format.deep_view()->0) && req_char(ot, "escape_char"@)
                    == m.options.escape_char && text_outcome(ot, "axbind_file_format"@) == Some(
                    m.options.axbind_file_format.deep_view()->0,
                ) && req_bool(ot, "sync_write"@) == m.options.sync_write
                &&& m.options.complete()
            },
    {
        let scheme_dir = match get_text(t, ctx, &String::from_str("scheme_dir")) {
            Ok(s) => s.clone(),
            Err(e) => {
                return Err(ConfigError::TableGet(e));
            },
        };
        let meta_table = match get_table(t, ctx, &String::from_str("metaoptions")) {
            Ok(mt) => mt,
            Err(e) => {
                return Err(ConfigError::TableGet(e));
            },
        };
        let meta_options = match MetaOptions::from_table_forced(
            meta_table,
            &ctx.with(&String::from_str("metaoptions")),
        ) {
            Ok(m) => m,
            Err(e) => {
                return Err(e);
            },
        };
        let options_table = match get_table(t, ctx, &String::from_str("options")) {
            Ok(ot) => ot,
            Err(e) => {
                return Err(ConfigError::TableGet(e));
            },
        };
        let options = match Options::from_table_forced(
            options_table,
            &ctx.with(&String::from_str("options")),
        ) {
            Ok(o) => o,
            Err(e) => {
                return Err(e);
            },
        };
        Ok(MasterConfig { scheme_dir, meta_options, options })
    }
}

/// An external value transform: an interpreter and a command template.
/// The library only derives the concrete command to run for a given
/// input; running it is the caller's business.
#[derive(Debug)]
pub struct BindFunction {
    /// The interpreter the command is handed to.
    pub shell: String,
    /// The command template, written with the meta escape and wildcard
    /// characters.
    pub rcommand: String,
}

impl BindFunction {
    /// The command template is valid for the meta escape character.
    pub open spec fn template_ok_spec(&self, meta: &MetaOptions) -> bool {
        engine::chunks_ok(self.rcommand@, meta.internal_escape_char->0)
    }

    /// Whether the command template can be rendered at all.
    pub fn template_ok(&self, meta: &MetaOptions) -> (r: bool)
        requires
            meta.complete(),
        ensures
            r == self.template_ok_spec(meta),
    {
        engine::template_ok(self.rcommand.as_str(), meta.internal_escape_char.unwrap())
    }

    /// The concrete command for one input value: the command template with
    /// the wildcard replaced by `key` everywhere the escape discipline
    /// allows it.
    pub fn render_command(&self, meta: &MetaOptions, key: &str) -> (r: String)
        requires
            meta.complete(),
            self.template_ok_spec(meta),
        ensures
            r@ == engine::esc_sub(
                self.rcommand@,
                meta.internal_escape_char->0,
                meta.wildcard_char->0,
                key@,
            ),
    {
        engine::escaped_manip(
            self.rcommand.as_str(),
            meta.internal_escape_char.unwrap(),
            meta.wildcard_char.unwrap(),
            key,
        )
    }
}

impl Clone for BindFunction {
    fn clone(&self) -> (r: Self)
        ensures
            r.shell@ == self.shell@,
            r.rcommand@ == self.rcommand@,
    {
        BindFunction { shell: self.shell.clone(), rcommand: self.rcommand.clone() }
    }
}

} // verus!
