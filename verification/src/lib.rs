//! Resolves named, composable sets of key-to-value text bindings
//! ("schemes") and applies them, by simultaneous multi-pattern
//! substitution, to placeholder tokens in target files described by
//! per-directory descriptors ("tag groups").

use vstd::prelude::*;

pub mod bindings;
pub mod configs;
pub mod doc;
pub mod engine;
pub mod process;
pub mod registry;
pub mod resolver;
pub mod tagfile;

pub use bindings::axbind_replace;
pub use bindings::BindingMap;
pub use engine::escaped_manip;
pub use resolver::get_bindings;

use crate::configs::ConfigError;
use crate::doc::Context;
use crate::engine::EngineError;

verus! {

/// A run's top-level failures.
#[derive(Debug)]
pub enum MainError {
    /// None of the candidate configuration files could be used.
    NoConfigFileFound(Vec<String>),
    /// The root directory cannot be read; the second field is the cause.
    InvalidRootDir(String, String),
    /// A scheme name did not resolve; the context is the place that
    /// referenced it.
    SchemeExpected(String, Context),
    /// An external transform failed: the function's context, the
    /// offending key, and the underlying cause.
    FunctionError(Context, String, String),
    /// A configuration or scheme descriptor is broken.
    ConfigError(ConfigError),
    /// The substitution engine could not be built.
    ReplaceError(EngineError),
    /// Anything else, described in words.
    Generic(String),
}

impl From<ConfigError> for MainError {
    fn from(value: ConfigError) -> (r: Self) {
        MainError::ConfigError(value)
    }
}

impl vstd::std_specs::convert::FromSpecImpl<ConfigError> for MainError {
    open spec fn obeys_from_spec() -> bool {
        true
    }

    open spec fn from_spec(value: ConfigError) -> Self {
        MainError::ConfigError(value)
    }
}

} // verus!
