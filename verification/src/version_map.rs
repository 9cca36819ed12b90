//! The per-session registry of the version governing each component's types.
//!
//! A fresh map resolves every component to the explicit unbounded value
//! ("encode/decode as the newest known schema").  A component's version can
//! be set at most once per map instance, from a `"major.minor.patch"`
//! string; a map handed to an encode or decode call is read through `&self`
//! only.

use vstd::prelude::*;
use vstd::string::{StringExecFns, StringSliceAdditionalSpecFns};

use crate::errors::{err_matches, SpecErr, VersionizeError};
use crate::version::{invalid_version_msg, parse_version_bytes, Version};

verus! {

/// The first version recorded for `name`, if any.
pub open spec fn lookup(entries: Seq<(String, Version)>, name: Seq<char>) -> Option<Version>
    decreases entries.len(),
{
    if entries.len() == 0 {
        None
    } else if entries[0].0@ == name {
        Some(entries[0].1)
    } else {
        lookup(entries.subrange(1, entries.len() as int), name)
    }
}

/// Appending an entry changes only the lookup of names not yet present.
proof fn lemma_lookup_push(entries: Seq<(String, Version)>, e: (String, Version), name: Seq<char>)
    ensures
        lookup(entries.push(e), name) == if lookup(entries, name) is Some {
            lookup(entries, name)
        } else if e.0@ == name {
            Some(e.1)
        } else {
            None
        },
    decreases entries.len(),
{
    let p = entries.push(e);
    let ptail = p.subrange(1, p.len() as int);
    assert(p.len() == entries.len() + 1);
    assert(lookup(p, name) == if p[0].0@ == name {
        Some(p[0].1)
    } else {
        lookup(ptail, name)
    });
    if entries.len() == 0 {
        assert(p[0] == e);
        assert(ptail =~= Seq::<(String, Version)>::empty());
        assert(lookup(ptail, name) is None);
    } else {
        let tail = entries.subrange(1, entries.len() as int);
        assert(p[0] == entries[0]);
        assert(ptail =~= tail.push(e));
        lemma_lookup_push(tail, e, name);
        assert(lookup(entries, name) == if entries[0].0@ == name {
            Some(entries[0].1)
        } else {
            lookup(tail, name)
        });
    }
}

/// Registry mapping a component name to the version that governs the
/// (de)serialization of its types.
pub struct VersionMap {
    entries: Vec<(String, Version)>,
}

impl VersionMap {
    /// Whether a version has been set for `name`.
    pub closed spec fn spec_has(&self, name: Seq<char>) -> bool {
        lookup(self.entries@, name) is Some
    }

    /// The version this map resolves for `name`: the recorded one, else the
    /// explicit unbounded value.
    pub closed spec fn spec_get(&self, name: Seq<char>) -> Version {
        match lookup(self.entries@, name) {
            Some(v) => v,
            None => Version { major: 0xFFFF, minor: 0xFFFF, patch: 0xFFFF },
        }
    }

    /// A fresh map: every component resolves to the unbounded version.
    pub fn new() -> (m: VersionMap)
        ensures
            forall|name: Seq<char>| !m.spec_has(name),
            forall|name: Seq<char>|
                #[trigger] m.spec_get(name) == (Version {
                    major: 0xFFFFu16,
                    minor: 0xFFFFu16,
                    patch: 0xFFFFu16,
                }),
    {
        let m = VersionMap { entries: Vec::new() };
        proof {
            assert(forall|name: Seq<char>| lookup(m.entries@, name) is None);
        }
        m
    }

    /// Records the version governing `name`'s types, at most once: fails
    /// when the string is not a valid three-part version, or when `name` is
    /// already set in this map instance.
    pub fn set_crate_version(&mut self, name: &str, version: &str) -> (r: Result<
        (),
        VersionizeError,
    >)
        ensures
            match r {
                Ok(_) => {
                    &&& (parse_version_bytes(version.spec_bytes()) matches Some(v) && final(self).spec_get(name@) == v)
                    &&& !old(self).spec_has(name@)
                    &&& final(self).spec_has(name@)
                    &&& forall|other: Seq<char>|
                        other != name@ ==> #[trigger] final(self).spec_get(other) == old(
                            self,
                        ).spec_get(other) && (final(self).spec_has(other) == old(self).spec_has(
                            other,
                        ))
                },
                Err(e) => {
                    &&& *final(self) == *old(self)
                    &&& (parse_version_bytes(version.spec_bytes()) is None && err_matches(
                        e,
                        SpecErr::Semantic(invalid_version_msg()),
                    )) || (parse_version_bytes(version.spec_bytes()) is Some && old(self).spec_has(
                        name@,
                    ) && err_matches(e, SpecErr::Semantic(already_set_msg())))
                },
            },
    {
        let v = match Version::parse(version) {
            Ok(v) => v,
            Err(e) => {
                return Err(e);
            },
        };
        if self.contains(name) {
            return Err(err_already_set());
        }
        let key = name.to_owned();
        let ghost before = self.entries@;
        self.entries.push((key, v));
        proof {
            assert forall|other: Seq<char>| other != name@ implies #[trigger] lookup(
                self.entries@,
                other,
            ) == lookup(before, other) by {
                lemma_lookup_push(before, (key, v), other);
            }
            assert(lookup(self.entries@, name@) == Some(v)) by {
                lemma_lookup_push(before, (key, v), name@);
            }
        }
        Ok(())
    }

    /// Whether a version has been recorded for `name`.
    pub fn contains(&self, name: &str) -> (r: bool)
        ensures
            r == self.spec_has(name@),
    {
        let key = name.to_owned();
        proof {
            assert(self.entries@.subrange(0, self.entries@.len() as int) =~= self.entries@);
        }
        let mut i: usize = 0;
        while i < self.entries.len()
            invariant
                i <= self.entries@.len(),
                key@ == name@,
                lookup(self.entries@, name@) == lookup(
                    self.entries@.subrange(i as int, self.entries@.len() as int),
                    name@,
                ),
            decreases self.entries@.len() - i,
        {
            let hit = self.entries[i].0 == key;
            proof {
                let tail = self.entries@.subrange(i as int, self.entries@.len() as int);
                assert(tail[0] == self.entries@[i as int]);
                assert(tail.subrange(1, tail.len() as int) =~= self.entries@.subrange(
                    i + 1,
                    self.entries@.len() as int,
                ));
            }
            if hit {
                return true;
            }
            i = i + 1;
        }
        proof {
            assert(self.entries@.subrange(i as int, self.entries@.len() as int)
                =~= Seq::<(String, Version)>::empty());
        }
        false
    }

    /// The version this map resolves for `name`: the recorded one, else the
    /// explicit unbounded value.
    pub fn get_crate_version(&self, name: &str) -> (v: Version)
        ensures
            v == self.spec_get(name@),
    {
        let key = name.to_owned();
        proof {
            assert(self.entries@.subrange(0, self.entries@.len() as int) =~= self.entries@);
        }
        let mut i: usize = 0;
        while i < self.entries.len()
            invariant
                i <= self.entries@.len(),
                key@ == name@,
                lookup(self.entries@, name@) == lookup(
                    self.entries@.subrange(i as int, self.entries@.len() as int),
                    name@,
                ),
            decreases self.entries@.len() - i,
        {
            let hit = self.entries[i].0 == key;
            proof {
                let tail = self.entries@.subrange(i as int, self.entries@.len() as int);
                assert(tail[0] == self.entries@[i as int]);
                assert(tail.subrange(1, tail.len() as int) =~= self.entries@.subrange(
                    i + 1,
                    self.entries@.len() as int,
                ));
            }
            if hit {
                return self.entries[i].1;
            }
            i = i + 1;
        }
        proof {
            assert(self.entries@.subrange(i as int, self.entries@.len() as int)
                =~= Seq::<(String, Version)>::empty());
        }
        Version::unbounded()
    }
}

/// The message with which a repeated `set_crate_version` is rejected.
pub open spec fn already_set_msg() -> Seq<char> {
    "component version already set"@
}

/// Builds the error for a component whose version is already set.
pub fn err_already_set() -> (e: VersionizeError)
    ensures
        err_matches(e, SpecErr::Semantic(already_set_msg())),
{
    VersionizeError::Semantic(String::from_str("component version already set"))
}

} // verus!
