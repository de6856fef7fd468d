//! What can go wrong with the cache.

use vstd::prelude::*;
use vstd::string::StringExecFns;

use crate::io::{IoError, IoErrorView};

verus! {

/// A failure of the task cache.
#[derive(Debug, Clone, PartialEq, Eq)]
pub enum CacheError {
    Io { path: String, source: IoError },
    Json { path: String, source: String },
    Invalid { message: String },
}

/// What a `CacheError` says.
pub enum CacheFault {
    Io { path: Seq<char>, source: IoErrorView },
    Json { path: Seq<char>, source: Seq<char> },
    Invalid { message: Seq<char> },
}

impl View for CacheError {
    type V = CacheFault;

    open spec fn view(&self) -> CacheFault {
        match *self {
            CacheError::Io { path, source } => CacheFault::Io { path: path@, source: source@ },
            CacheError::Json { path, source } => CacheFault::Json { path: path@, source: source@ },
            CacheError::Invalid { message } => CacheFault::Invalid { message: message@ },
        }
    }
}

/// The text that reports a fault.
pub open spec fn cache_fault_text(fault: CacheFault) -> Seq<char> {
    match fault {
        CacheFault::Io { path, source } => "cache could not access "@ + path + ": "@
            + source.message,
        CacheFault::Json { path, source } => "cache could not parse "@ + path + ": "@ + source,
        CacheFault::Invalid { message } => "invalid cache entry: "@ + message,
    }
}

impl CacheError {
    /// The text that reports the error.
    pub fn message(&self) -> (r: String)
        ensures
            r@ == cache_fault_text(self@),
    {
        match self {
            CacheError::Io { path, source } => {
                let mut text = "cache could not access ".to_owned();
                text.append(path.as_str());
                text.append(": ");
                text.append(source.message.as_str());
                text
            },
            CacheError::Json { path, source } => {
                let mut text = "cache could not parse ".to_owned();
                text.append(path.as_str());
                text.append(": ");
                text.append(source.as_str());
                text
            },
            CacheError::Invalid { message } => {
                let mut text = "invalid cache entry: ".to_owned();
                text.append(message.as_str());
                text
            },
        }
    }

    /// The text of the failure that this one wraps, where it wraps one.
    pub fn source(&self) -> (r: Option<String>)
        ensures
            crate::text::optional_text(r) == (match self@ {
                CacheFault::Io { source, .. } => Some(source.message),
                CacheFault::Json { source, .. } => Some(source),
                CacheFault::Invalid { .. } => None,
            }),
    {
        match self {
            CacheError::Io { source, .. } => Some(source.message.clone()),
            CacheError::Json { source, .. } => Some(source.clone()),
            CacheError::Invalid { .. } => None,
        }
    }
}

} // verus!
