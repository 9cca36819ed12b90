//! Versions: the unit of schema evolution.
//!
//! A version is an ordered (major, minor, patch) triple; the order is
//! lexicographic.  "Unbounded" (the newest known schema) is the explicit,
//! named value [`Version::unbounded`], not an ambient default.

use vstd::prelude::*;
use vstd::slice::slice_index_get;
use vstd::string::{StringExecFns, StringSliceAdditionalSpecFns};

use crate::errors::{err_matches, SpecErr, VersionizeError};

verus! {

/// An ordered (major, minor, patch) triple identifying a schema snapshot.
#[derive(Clone, Copy, Debug, PartialEq, Eq, Structural)]
pub struct Version {
    pub major: u16,
    pub minor: u16,
    pub patch: u16,
}

/// The one number a version triple stands for; the lexicographic order on
/// triples is exactly the numeric order of these.
pub open spec fn version_num(v: Version) -> int {
    v.major * 0x1_0000_0000 + v.minor * 0x1_0000 + v.patch
}

/// `a` is at or before `b` in the total order on versions.
pub open spec fn version_le(a: Version, b: Version) -> bool {
    version_num(a) <= version_num(b)
}

/// `a` is strictly before `b`.
pub open spec fn version_lt(a: Version, b: Version) -> bool {
    version_num(a) < version_num(b)
}

impl Version {
    /// The version `major.minor.patch`.
    pub fn new(major: u16, minor: u16, patch: u16) -> (v: Version)
        ensures
            v == (Version { major, minor, patch }),
    {
        Version { major, minor, patch }
    }

    /// The least version, `0.0.0`.
    pub fn zero() -> (v: Version)
        ensures
            v == (Version { major: 0u16, minor: 0u16, patch: 0u16 }),
            forall|w: Version| version_le(v, w),
    {
        Version { major: 0, minor: 0, patch: 0 }
    }

    /// The explicit "unbounded / newest known schema" value: no settable
    /// version lies after it.
    pub fn unbounded() -> (v: Version)
        ensures
            v == (Version { major: 0xFFFFu16, minor: 0xFFFFu16, patch: 0xFFFFu16 }),
            forall|w: Version| version_le(w, v),
    {
        Version { major: 0xFFFF, minor: 0xFFFF, patch: 0xFFFF }
    }

    /// `self <= other` in the total lexicographic order.
    pub fn le(&self, other: &Version) -> (r: bool)
        ensures
            r == version_le(*self, *other),
    {
        if self.major != other.major {
            self.major < other.major
        } else if self.minor != other.minor {
            self.minor < other.minor
        } else {
            self.patch <= other.patch
        }
    }

    /// `self < other` in the total lexicographic order.
    pub fn lt(&self, other: &Version) -> (r: bool)
        ensures
            r == version_lt(*self, *other),
    {
        if self.major != other.major {
            self.major < other.major
        } else if self.minor != other.minor {
            self.minor < other.minor
        } else {
            self.patch < other.patch
        }
    }

    /// Parses a `"major.minor.patch"` string: three non-empty decimal runs
    /// separated by dots, each fitting in 16 bits.
    pub fn parse(s: &str) -> (r: Result<Version, VersionizeError>)
        ensures
            match parse_version_bytes(s.spec_bytes()) {
                Option::Some(v) => r matches Ok(w) && w == v,
                Option::None => r matches Err(e) && err_matches(
                    e,
                    SpecErr::Semantic(invalid_version_msg()),
                ),
            },
    {
        let bytes = s.as_bytes();
        let n = bytes.len();
        let i = find_dot_from(bytes, 0);
        if i == n {
            return Err(err_invalid_version());
        }
        let j = find_dot_from(bytes, i + 1);
        if j == n {
            return Err(err_invalid_version());
        }
        let major = match parse_run(bytes, 0, i) {
            Option::Some(x) => x,
            Option::None => {
                return Err(err_invalid_version());
            },
        };
        let minor = match parse_run(bytes, i + 1, j) {
            Option::Some(x) => x,
            Option::None => {
                return Err(err_invalid_version());
            },
        };
        let patch = match parse_run(bytes, j + 1, n) {
            Option::Some(x) => x,
            Option::None => {
                return Err(err_invalid_version());
            },
        };
        Ok(Version { major, minor, patch })
    }
}

/// A decimal digit byte.
pub open spec fn is_digit(b: u8) -> bool {
    0x30 <= b <= 0x39
}

/// Every byte of the sequence is a decimal digit.
pub open spec fn all_digits(s: Seq<u8>) -> bool {
    forall|i: int| 0 <= i < s.len() ==> is_digit(#[trigger] s[i])
}

/// The number a run of decimal digit bytes denotes.
pub open spec fn dec_val(s: Seq<u8>) -> int
    decreases s.len(),
{
    if s.len() == 0 {
        0
    } else {
        dec_val(s.subrange(0, s.len() - 1)) * 10 + (s[s.len() - 1] - 0x30)
    }
}

/// The index of the first dot at or after `from`, or -1 when there is none.
pub open spec fn find_dot(s: Seq<u8>, from: int) -> int
    decreases s.len() - from,
{
    if from < 0 || from >= s.len() {
        -1
    } else if s[from] == 0x2Eu8 {
        from
    } else {
        find_dot(s, from + 1)
    }
}

/// What a version string denotes: `major.minor.patch` with three non-empty
/// all-digit runs, each denoting a number that fits in 16 bits.
pub open spec fn parse_version_bytes(s: Seq<u8>) -> Option<Version> {
    let i = find_dot(s, 0);
    if i < 0 {
        None
    } else {
        let j = find_dot(s, i + 1);
        if j < 0 {
            None
        } else {
            let a = s.subrange(0, i);
            let b = s.subrange(i + 1, j);
            let c = s.subrange(j + 1, s.len() as int);
            if a.len() > 0 && b.len() > 0 && c.len() > 0 && all_digits(a) && all_digits(b)
                && all_digits(c) && dec_val(a) <= 0xFFFF && dec_val(b) <= 0xFFFF && dec_val(c)
                <= 0xFFFF {
                Some(
                    Version {
                        major: dec_val(a) as u16,
                        minor: dec_val(b) as u16,
                        patch: dec_val(c) as u16,
                    },
                )
            } else {
                None
            }
        }
    }
}

/// The message with which an ill-formed version string is rejected.
pub open spec fn invalid_version_msg() -> Seq<char> {
    "invalid version string"@
}

/// Builds the error for an ill-formed version string.
pub fn err_invalid_version() -> (e: VersionizeError)
    ensures
        err_matches(e, SpecErr::Semantic(invalid_version_msg())),
{
    VersionizeError::Semantic(String::from_str("invalid version string"))
}

/// Finds the first dot at or after `from`; yields the slice length when
/// there is none.
fn find_dot_from(bytes: &[u8], from: usize) -> (r: usize)
    requires
        from <= bytes@.len(),
    ensures
        find_dot(bytes@, from as int) >= 0 ==> r == find_dot(bytes@, from as int) && r
            < bytes@.len() && bytes@[r as int] == 0x2Eu8,
        find_dot(bytes@, from as int) < 0 ==> r == bytes@.len(),
        from <= r <= bytes@.len(),
{
    let n = bytes.len();
    let mut i: usize = from;
    while i < n
        invariant
            from <= i <= n,
            n == bytes@.len(),
            find_dot(bytes@, from as int) == find_dot(bytes@, i as int),
        decreases n - i,
    {
        if *slice_index_get(bytes, i) == 0x2Eu8 {
            return i;
        }
        i = i + 1;
    }
    i
}

/// A run of all digits denotes a non-negative number.
proof fn lemma_dec_val_nonneg(s: Seq<u8>)
    requires
        all_digits(s),
    ensures
        dec_val(s) >= 0,
    decreases s.len(),
{
    if s.len() > 0 {
        assert(all_digits(s.subrange(0, s.len() - 1)));
        lemma_dec_val_nonneg(s.subrange(0, s.len() - 1));
    }
}

/// Extending a digit run never shrinks its value.
proof fn lemma_dec_val_mono(s: Seq<u8>, k: int)
    requires
        all_digits(s),
        0 <= k <= s.len(),
    ensures
        dec_val(s.subrange(0, k)) <= dec_val(s),
    decreases s.len() - k,
{
    if k < s.len() {
        let t = s.subrange(0, s.len() - 1);
        assert(all_digits(t));
        assert(t.subrange(0, k) =~= s.subrange(0, k));
        lemma_dec_val_mono(t, k);
        lemma_dec_val_nonneg(t);
        assert(is_digit(s[s.len() - 1]));
        assert(dec_val(s) == dec_val(t) * 10 + (s[s.len() - 1] - 0x30));
        assert(dec_val(t) * 10 >= dec_val(t)) by {
            assert(dec_val(t) >= 0);
        }
    } else {
        assert(s.subrange(0, s.len() as int) =~= s);
    }
}

/// Parses the digit run `bytes[from..to]`; yields its value when the run is
/// non-empty, all digits, and fits in 16 bits.
fn parse_run(bytes: &[u8], from: usize, to: usize) -> (r: Option<u16>)
    requires
        from <= to <= bytes@.len(),
    ensures
        ({
            let run = bytes@.subrange(from as int, to as int);
            match r {
                Option::Some(x) => run.len() > 0 && all_digits(run) && dec_val(run) == x && x
                    <= 0xFFFF,
                Option::None => !(run.len() > 0 && all_digits(run) && dec_val(run) <= 0xFFFF),
            }
        }),
{
    let ghost run = bytes@.subrange(from as int, to as int);
    if from == to {
        return None;
    }
    let mut acc: u32 = 0;
    let mut k: usize = 0;
    while k < to - from
        invariant
            k <= to - from,
            from <= to <= bytes@.len(),
            run == bytes@.subrange(from as int, to as int),
            all_digits(run.subrange(0, k as int)),
            acc == dec_val(run.subrange(0, k as int)),
            acc <= 0xFFFF,
        decreases to - from - k,
    {
        let b = *slice_index_get(bytes, from + k);
        proof {
            assert(b == run[k as int]);
        }
        if b < 0x30 || b > 0x39 {
            proof {
                assert(!is_digit(run[k as int]));
                assert(!all_digits(run));
            }
            return None;
        }
        let v: u32 = acc * 10 + ((b - 0x30) as u32);
        proof {
            assert(run.subrange(0, k + 1).subrange(0, k as int) =~= run.subrange(0, k as int));
            assert(run.subrange(0, k + 1)[k as int] == run[k as int]);
            assert(dec_val(run.subrange(0, k + 1)) == dec_val(run.subrange(0, k as int)) * 10 + (
            run[k as int] - 0x30));
        }
        if v > 0xFFFF {
            proof {
                if all_digits(run) {
                    lemma_dec_val_mono(run, k + 1);
                }
            }
            return None;
        }
        acc = v;
        k = k + 1;
    }
    proof {
        assert(run.subrange(0, run.len() as int) =~= run);
    }
    Some(acc as u16)
}

} // verus!
