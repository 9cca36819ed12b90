//! The semantic-hook protocol: user-supplied default synthesis, pre-encode
//! and post-decode hooks, and enum-variant fallback.
//!
//! Each executable hook is pinned to a spec function of the same hook set, so
//! hooks are deterministic functions of the record, the version and their
//! identifier, and the engine's contracts can speak about them exactly.  A
//! hook receives the whole in-progress record, not just one field, and may
//! mutate any of its fields or reject the operation with a semantic message.

use vstd::prelude::*;
use vstd::string::StringExecFns;

use crate::errors::{err_matches, SpecErr, VersionizeError};
use crate::value::{deep_view_seq, Value, ValueV};
use crate::version::Version;

verus! {

/// A set of semantic hooks and default-synthesis functions, addressed by the
/// identifiers that field and variant declarations carry.
///
/// Every executable method must return exactly what its spec function says:
/// on success the mutated record (or synthesized value) must have the image
/// the spec function computes, and on failure the semantic message must be
/// the one the spec function computes.
pub trait SchemaHooks {
    /// What default synthesis produces for a field absent at `source`.
    spec fn spec_default(&self, id: u32, source: Version) -> Result<ValueV, Seq<char>>;

    /// What the pre-encode hook turns the record's fields into at `target`.
    spec fn spec_pre(&self, id: u32, fields: Seq<ValueV>, target: Version) -> Result<
        Seq<ValueV>,
        Seq<char>,
    >;

    /// What the post-decode hook turns the record's fields into at `source`.
    spec fn spec_post(&self, id: u32, fields: Seq<ValueV>, source: Version) -> Result<
        Seq<ValueV>,
        Seq<char>,
    >;

    /// What the variant fallback turns a gated-out variant value into at the
    /// governing version.
    spec fn spec_fallback(&self, id: u32, value: ValueV, version: Version) -> Result<
        ValueV,
        Seq<char>,
    >;

    /// Synthesizes the value of a field absent at `source`.
    fn run_default(&self, id: u32, source: &Version) -> (r: Result<Value, VersionizeError>)
        ensures
            match r {
                Ok(v) => self.spec_default(id, *source) matches Ok(w) && w == v.deep_view(),
                Err(e) => self.spec_default(id, *source) matches Err(m) && err_matches(
                    e,
                    SpecErr::Semantic(m),
                ),
            },
    ;

    /// Runs the pre-encode hook on the in-progress record at `target`.
    fn run_pre(&self, id: u32, fields: &mut Vec<Value>, target: &Version) -> (r: Result<
        (),
        VersionizeError,
    >)
        ensures
            match r {
                Ok(_) => self.spec_pre(id, deep_view_seq(old(fields)@), *target) matches Ok(fs)
                    && fs == deep_view_seq(final(fields)@),
                Err(e) => self.spec_pre(id, deep_view_seq(old(fields)@), *target) matches Err(m)
                    && err_matches(e, SpecErr::Semantic(m)),
            },
    ;

    /// Runs the post-decode hook on the in-progress record at `source`.
    fn run_post(&self, id: u32, fields: &mut Vec<Value>, source: &Version) -> (r: Result<
        (),
        VersionizeError,
    >)
        ensures
            match r {
                Ok(_) => self.spec_post(id, deep_view_seq(old(fields)@), *source) matches Ok(fs)
                    && fs == deep_view_seq(final(fields)@),
                Err(e) => self.spec_post(id, deep_view_seq(old(fields)@), *source) matches Err(m)
                    && err_matches(e, SpecErr::Semantic(m)),
            },
    ;

    /// Produces a replacement for a variant value not present at `version`.
    fn run_fallback(&self, id: u32, current: &Value, version: &Version) -> (r: Result<
        Value,
        VersionizeError,
    >)
        ensures
            match r {
                Ok(v) => self.spec_fallback(id, current.deep_view(), *version) matches Ok(w) && w
                    == v.deep_view(),
                Err(e) => self.spec_fallback(id, current.deep_view(), *version) matches Err(m)
                    && err_matches(e, SpecErr::Semantic(m)),
            },
    ;
}

/// The empty hook set, for schemas that declare no hooks: every identifier is
/// unknown and rejected.
pub struct NoHooks;

/// The message with which [`NoHooks`] rejects any hook identifier.
pub open spec fn unknown_hook_msg() -> Seq<char> {
    "unknown hook identifier"@
}

/// Builds the semantic error for an unknown hook identifier.
pub fn err_unknown_hook() -> (e: VersionizeError)
    ensures
        err_matches(e, SpecErr::Semantic(unknown_hook_msg())),
{
    VersionizeError::Semantic(String::from_str("unknown hook identifier"))
}

impl SchemaHooks for NoHooks {
    open spec fn spec_default(&self, id: u32, source: Version) -> Result<ValueV, Seq<char>> {
        Err(unknown_hook_msg())
    }

    open spec fn spec_pre(&self, id: u32, fields: Seq<ValueV>, target: Version) -> Result<
        Seq<ValueV>,
        Seq<char>,
    > {
        Err(unknown_hook_msg())
    }

    open spec fn spec_post(&self, id: u32, fields: Seq<ValueV>, source: Version) -> Result<
        Seq<ValueV>,
        Seq<char>,
    > {
        Err(unknown_hook_msg())
    }

    open spec fn spec_fallback(&self, id: u32, value: ValueV, version: Version) -> Result<
        ValueV,
        Seq<char>,
    > {
        Err(unknown_hook_msg())
    }

    fn run_default(&self, id: u32, source: &Version) -> (r: Result<Value, VersionizeError>) {
        Err(err_unknown_hook())
    }

    fn run_pre(&self, id: u32, fields: &mut Vec<Value>, target: &Version) -> (r: Result<
        (),
        VersionizeError,
    >) {
        Err(err_unknown_hook())
    }

    fn run_post(&self, id: u32, fields: &mut Vec<Value>, source: &Version) -> (r: Result<
        (),
        VersionizeError,
    >) {
        Err(err_unknown_hook())
    }

    fn run_fallback(&self, id: u32, current: &Value, version: &Version) -> (r: Result<
        Value,
        VersionizeError,
    >) {
        Err(err_unknown_hook())
    }
}

} // verus!
