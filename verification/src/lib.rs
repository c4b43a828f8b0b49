//! Core engine primitives for ZManager: archive format detection, the
//! adapter registry and handle state machine, job progress projection, and
//! the native readers for several container formats.
use vstd::prelude::*;

pub mod text;
pub mod paths;
pub mod multi_volume;
pub mod gitignore;
pub mod digest;
pub mod checksum;
pub mod ar_backend;
pub mod archive_format;
pub mod archive_browser;
pub mod engine;
pub mod jobs;
pub mod libarchive_backend;
pub mod lzop_decoder;
pub mod msi_backend;
pub mod hex;
pub mod p256_signature;
pub mod device_identity;
pub mod apple_pkg_backend;
pub mod identity_catalog;
pub mod identity_legacy;
pub mod mtree_backend;
pub mod lha_backend;

use crate::text::{chars_of, concat_chars, string_from_chars};

verus! {

/// The stable engine name used in diagnostics and health checks.
pub const ENGINE_NAME: &'static str = "zmanager-core";

/// The core crate's version.
pub const CORE_VERSION: &'static str = "0.1.0";

/// A minimal report proving that the engine can be called.
#[derive(Debug, Clone, PartialEq, Eq)]
pub struct HealthReport {
    /// Engine component that produced the report.
    pub engine: &'static str,
    /// Core crate version.
    pub version: &'static str,
    /// Whether the core crate considers itself ready to accept jobs.
    pub ready: bool,
}

/// The one-line summary: engine, version and readiness in parentheses.
pub open spec fn summary_spec(engine: Seq<char>, version: Seq<char>, ready: bool) -> Seq<char> {
    engine + seq![' '] + version + seq![' ', '('] + (if ready {
        seq!['r', 'e', 'a', 'd', 'y']
    } else {
        seq!['n', 'o', 't', ' ', 'r', 'e', 'a', 'd', 'y']
    }) + seq![')']
}

impl HealthReport {
    /// Returns a human-readable one-line summary for CLI output.
    pub fn summary(&self) -> (r: String)
        ensures
            r@ == summary_spec(self.engine@, self.version@, self.ready),
    {
        let status: Vec<char> = if self.ready {
            vec!['r', 'e', 'a', 'd', 'y']
        } else {
            vec!['n', 'o', 't', ' ', 'r', 'e', 'a', 'd', 'y']
        };
        let engine = chars_of(self.engine);
        let version = chars_of(self.version);
        let space: Vec<char> = vec![' '];
        let open: Vec<char> = vec![' ', '('];
        let close: Vec<char> = vec![')'];
        let a = concat_chars(&engine, &space);
        let b = concat_chars(&a, &version);
        let c = concat_chars(&b, &open);
        let d = concat_chars(&c, &status);
        let e = concat_chars(&d, &close);
        string_from_chars(&e)
    }
}

/// Runs a lightweight engine health check.
pub fn healthcheck() -> (r: HealthReport)
    ensures
        r.engine@ == ENGINE_NAME@,
        r.version@ == CORE_VERSION@,
        r.ready,
{
    HealthReport { engine: ENGINE_NAME, version: CORE_VERSION, ready: true }
}

} // verus!
