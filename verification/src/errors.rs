//! The error taxonomy: serialize, deserialize and semantic failures, plus
//! the two structured deserialize failures of the header-plus-array container
//! that must report both of the numbers they compare.

use vstd::prelude::*;
use vstd::string::StringExecFns;

verus! {

/// A failure of one encode or decode call.  No kind is retried internally.
#[derive(Clone, Debug, PartialEq, Eq)]
pub enum VersionizeError {
    /// The byte sink rejected a write (serialize kind): it could not take the
    /// whole encoding.
    Serialize(String),
    /// The byte source could not supply the requested bytes, or the wire form
    /// is malformed (deserialize kind).
    Deserialize(String),
    /// The element count claimed by a header-plus-array value's header
    /// disagrees with the bytes actually available for its elements
    /// (deserialize kind); both counts are reported.
    FamSizeMismatch { declared: u64, actual: u64 },
    /// The element count claimed by a header-plus-array value exceeds the
    /// container's construction-time capacity (deserialize kind); both the
    /// claim and the capacity are reported.
    FamCapacityExceeded { declared: u64, capacity: u64 },
    /// A default-synthesis function or a hook rejected the value on domain
    /// grounds; carries its human-readable message.
    Semantic(String),
}

/// The spec-level image of an engine failure.  Spec functions compute these;
/// each executable failure is pinned to one by [`err_matches`].
pub enum SpecErr {
    /// The sink has too little room for the whole encoding.
    SinkFull,
    /// The source ran out of bytes.
    Eof,
    /// A presence or boolean byte held a value other than 0 or 1.
    BadTag,
    /// A discriminant did not name any variant of the type.
    BadDiscriminant,
    /// A value did not fit the shape it was encoded under.
    BadValue,
    /// A variant absent at the version had no fallback declared.
    NoFallback,
    /// A fallback returned a variant that is itself not valid at the version.
    FallbackInvalid,
    /// The header count and the bytes available for elements disagree.
    FamSize { declared: int, actual: int },
    /// The header count exceeds the container's capacity.
    FamCapacity { declared: int, capacity: int },
    /// A hook or default-synthesis function failed with this message.
    Semantic(Seq<char>),
}

/// The exec error that stands for each spec-level failure.
pub open spec fn err_matches(e: VersionizeError, se: SpecErr) -> bool {
    match se {
        SpecErr::SinkFull => e matches VersionizeError::Serialize(m) && m@
            == "failed to write whole buffer"@,
        SpecErr::Eof => e matches VersionizeError::Deserialize(m) && m@ == "failed to fill whole buffer"@,
        SpecErr::BadTag => e matches VersionizeError::Deserialize(m) && m@
            == "invalid presence or boolean byte"@,
        SpecErr::BadDiscriminant => e matches VersionizeError::Deserialize(m) && m@
            == "unknown enum variant index"@,
        SpecErr::BadValue => e matches VersionizeError::Serialize(m) && m@
            == "value does not match its schema"@,
        SpecErr::NoFallback => e matches VersionizeError::Semantic(m) && m@
            == "variant not present at this version and no fallback declared"@,
        SpecErr::FallbackInvalid => e matches VersionizeError::Semantic(m) && m@
            == "fallback produced a variant not valid at this version"@,
        SpecErr::FamSize { declared, actual } => e matches VersionizeError::FamSizeMismatch {
            declared: d,
            actual: a,
        } && d == declared && a == actual,
        SpecErr::FamCapacity { declared, capacity } => e
            matches VersionizeError::FamCapacityExceeded { declared: d, capacity: c } && d
            == declared && c == capacity,
        SpecErr::Semantic(s) => e matches VersionizeError::Semantic(m) && m@ == s,
    }
}

/// The serialize failure for a sink with too little room.
pub fn err_sink_full() -> (e: VersionizeError)
    ensures
        err_matches(e, SpecErr::SinkFull),
{
    VersionizeError::Serialize(String::from_str("failed to write whole buffer"))
}

/// The deserialize failure for an exhausted source.
pub fn err_eof() -> (e: VersionizeError)
    ensures
        err_matches(e, SpecErr::Eof),
{
    VersionizeError::Deserialize(String::from_str("failed to fill whole buffer"))
}

/// The deserialize failure for a bad presence or boolean byte.
pub fn err_bad_tag() -> (e: VersionizeError)
    ensures
        err_matches(e, SpecErr::BadTag),
{
    VersionizeError::Deserialize(String::from_str("invalid presence or boolean byte"))
}

/// The deserialize failure for an out-of-range discriminant.
pub fn err_bad_discriminant() -> (e: VersionizeError)
    ensures
        err_matches(e, SpecErr::BadDiscriminant),
{
    VersionizeError::Deserialize(String::from_str("unknown enum variant index"))
}

/// The serialize failure for a value that does not fit its schema.
pub fn err_bad_value() -> (e: VersionizeError)
    ensures
        err_matches(e, SpecErr::BadValue),
{
    VersionizeError::Serialize(String::from_str("value does not match its schema"))
}

/// The semantic failure for a gated-out variant with no declared fallback.
pub fn err_no_fallback() -> (e: VersionizeError)
    ensures
        err_matches(e, SpecErr::NoFallback),
{
    VersionizeError::Semantic(
        String::from_str("variant not present at this version and no fallback declared"),
    )
}

/// The semantic failure for a fallback whose result fails the version gate.
pub fn err_fallback_invalid() -> (e: VersionizeError)
    ensures
        err_matches(e, SpecErr::FallbackInvalid),
{
    VersionizeError::Semantic(
        String::from_str("fallback produced a variant not valid at this version"),
    )
}

} // verus!
