//! The per-type contract's entry points: encode a value into a bounded byte
//! sink and decode one from a byte source, with the governing version
//! resolved from the caller's [`VersionMap`].
//!
//! Every encode or decode call operates over one fully buffered value; a
//! sink with too little room for the whole encoding rejects the write.

use vstd::prelude::*;

use crate::dec::{dec_value, spec_dec};
use crate::enc::{enc_value, spec_enc};
use crate::errors::{err_matches, err_sink_full, SpecErr, VersionizeError};
use crate::hooks::SchemaHooks;
use crate::value::{Shape, Value};
use crate::version_map::VersionMap;

verus! {

/// A bounded byte sink: it takes each write whole, or not at all.
pub struct Sink {
    buf: Vec<u8>,
    cap: usize,
}

impl Sink {
    /// The bytes written so far.
    pub closed spec fn spec_bytes(&self) -> Seq<u8> {
        self.buf@
    }

    /// The total number of bytes this sink accepts.
    pub closed spec fn spec_capacity(&self) -> int {
        self.cap as int
    }

    /// An empty sink that accepts up to `cap` bytes in total.
    pub fn with_capacity(cap: usize) -> (s: Sink)
        ensures
            s.spec_bytes() == Seq::<u8>::empty(),
            s.spec_capacity() == cap,
    {
        let s = Sink { buf: Vec::new(), cap };
        proof {
            assert(s.buf@ =~= Seq::<u8>::empty());
        }
        s
    }

    /// Takes all the given bytes, or none when they do not fit.
    pub fn write_all(&mut self, bs: &Vec<u8>) -> (r: Result<(), VersionizeError>)
        ensures
            old(self).spec_bytes().len() + bs@.len() <= old(self).spec_capacity() ==> (r matches Ok(
                _,
            ) && final(self).spec_bytes() == old(self).spec_bytes() + bs@),
            old(self).spec_bytes().len() + bs@.len() > old(self).spec_capacity() ==> (r matches Err(
                e,
            ) && err_matches(e, SpecErr::SinkFull) && *final(self) == *old(self)),
            final(self).spec_capacity() == old(self).spec_capacity(),
    {
        let n = bs.len();
        if n <= self.cap && self.buf.len() <= self.cap - n {
            crate::wire::push_bytes(&mut self.buf, bs);
            Ok(())
        } else {
            Err(err_sink_full())
        }
    }

    /// The number of bytes written so far.
    pub fn len(&self) -> (n: usize)
        ensures
            n == self.spec_bytes().len(),
    {
        self.buf.len()
    }

    /// Hands the written bytes out.
    pub fn into_bytes(self) -> (v: Vec<u8>)
        ensures
            v@ == self.spec_bytes(),
    {
        self.buf
    }
}

/// Encodes `value` under `schema` into the sink, at the version the map
/// resolves for the owning component.  On success the sink holds exactly the
/// canonical bytes of the value; the caller's value is never mutated — hooks
/// work on a private copy.
pub fn serialize<H: SchemaHooks>(
    h: &H,
    schema: &Shape,
    component: &str,
    value: &Value,
    vm: &VersionMap,
    sink: &mut Sink,
) -> (r: Result<(), VersionizeError>)
    ensures
        ({
            let target = vm.spec_get(component@);
            match spec_enc(h, value.deep_view(), *schema, target) {
                Ok(bytes) => if old(sink).spec_bytes().len() + bytes.len() <= old(
                    sink,
                ).spec_capacity() {
                    r matches Ok(_) && final(sink).spec_bytes() == old(sink).spec_bytes() + bytes
                } else {
                    r matches Err(e) && err_matches(e, SpecErr::SinkFull) && *final(sink) == *old(
                        sink,
                    )
                },
                Err(se) => r matches Err(e) && err_matches(e, se) && *final(sink) == *old(sink),
            }
        }),
{
    let target = vm.get_crate_version(component);
    let mut out: Vec<u8> = Vec::new();
    proof {
        assert(out@ =~= Seq::<u8>::empty());
    }
    match enc_value(h, value, schema, &target, &mut out) {
        Err(e) => Err(e),
        Ok(_) => {
            proof {
                if let Ok(bytes) = spec_enc(h, value.deep_view(), *schema, target) {
                    assert(out@ =~= bytes);
                }
            }
            sink.write_all(&out)
        },
    }
}

/// Decodes one value of `schema` from the front of `data`, at the version
/// the map resolves for the owning component — the layout that produced the
/// bytes cannot be known any other way.  Bytes after the value are left
/// unread.
pub fn deserialize<H: SchemaHooks>(
    h: &H,
    schema: &Shape,
    component: &str,
    data: &Vec<u8>,
    vm: &VersionMap,
) -> (r: Result<Value, VersionizeError>)
    ensures
        ({
            let source = vm.spec_get(component@);
            match spec_dec(h, *schema, data@, 0, source) {
                Ok((vv, p)) => r matches Ok(v) && v.deep_view() == vv,
                Err(se) => r matches Err(e) && err_matches(e, se),
            }
        }),
{
    let source = vm.get_crate_version(component);
    let mut pos: usize = 0;
    dec_value(h, schema, data, &mut pos, &source)
}

} // verus!
