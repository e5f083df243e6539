//! Length-prefixed little-endian byte codec used by the retained control-state
//! records: writers append 64-bit integers and length-prefixed byte fields, and
//! strict readers take them back in order.

use vstd::prelude::*;
use vstd::bytes::{spec_u64_from_le_bytes, spec_u64_to_le_bytes, u64_from_le_bytes, u64_to_le_bytes};
use crate::text::append;

verus! {

/// Appends `value` as eight little-endian bytes.
pub fn put_u64(out: &mut Vec<u8>, value: u64)
    ensures
        final(out)@ == old(out)@ + spec_u64_to_le_bytes(value),
{
    let bytes = u64_to_le_bytes(value);
    append(out, bytes.as_slice());
}

/// Appends `bytes` prefixed by its length as a little-endian 64-bit integer.
pub fn put_bytes(out: &mut Vec<u8>, bytes: &[u8])
    ensures
        final(out)@ == old(out)@ + spec_u64_to_le_bytes(bytes@.len() as u64) + bytes@,
{
    put_u64(out, bytes.len() as u64);
    append(out, bytes);
}

/// A strict cursor over a byte record.
pub struct Reader<'a> {
    bytes: &'a [u8],
    offset: usize,
}

/// The error every read past the end of a record reports.
pub open spec fn truncated() -> Seq<char> {
    "truncated exec state"@
}

impl<'a> Reader<'a> {
    /// The whole record.
    pub closed spec fn data(&self) -> Seq<u8> {
        self.bytes@
    }

    /// How many bytes have been consumed.
    pub closed spec fn pos(&self) -> nat {
        self.offset as nat
    }

    pub open spec fn wf(&self) -> bool {
        self.pos() <= self.data().len()
    }

    /// A cursor at the start of `bytes`.
    pub fn new(bytes: &'a [u8]) -> (r: Self)
        ensures
            r.wf(),
            r.data() == bytes@,
            r.pos() == 0,
    {
        Reader { bytes, offset: 0 }
    }

    /// The next `len` bytes, or an error (consuming nothing) when fewer remain.
    pub fn take(&mut self, len: usize) -> (r: Result<&'a [u8], &'static str>)
        requires
            old(self).wf(),
        ensures
            final(self).wf(),
            final(self).data() == old(self).data(),
            old(self).pos() + len <= old(self).data().len() ==> (r matches Ok(s) && s@
                == old(self).data().subrange(old(self).pos() as int, (old(self).pos() + len) as int)
                && final(self).pos() == old(self).pos() + len),
            old(self).pos() + len > old(self).data().len() ==> (r matches Err(e) && e@
                == truncated() && final(self).pos() == old(self).pos()),
    {
        if len > self.bytes.len() - self.offset {
            return Err("truncated exec state");
        }
        let end = self.offset + len;
        let value = vstd::slice::slice_subrange(self.bytes, self.offset, end);
        self.offset = end;
        Ok(value)
    }

    /// The next byte.
    pub fn byte(&mut self) -> (r: Result<u8, &'static str>)
        requires
            old(self).wf(),
        ensures
            final(self).wf(),
            final(self).data() == old(self).data(),
            old(self).pos() < old(self).data().len() ==> r == Ok::<u8, &'static str>(
                old(self).data()[old(self).pos() as int],
            ) && final(self).pos() == old(self).pos() + 1,
            old(self).pos() >= old(self).data().len() ==> (r matches Err(e) && e@ == truncated()
                && final(self).pos() == old(self).pos()),
    {
        let s = self.take(1)?;
        Ok(s[0])
    }

    /// The next little-endian 64-bit integer.
    pub fn u64(&mut self) -> (r: Result<u64, &'static str>)
        requires
            old(self).wf(),
        ensures
            final(self).wf(),
            final(self).data() == old(self).data(),
            old(self).pos() + 8 <= old(self).data().len() ==> r == Ok::<u64, &'static str>(
                spec_u64_from_le_bytes(
                    old(self).data().subrange(old(self).pos() as int, (old(self).pos() + 8) as int),
                ),
            ) && final(self).pos() == old(self).pos() + 8,
            old(self).pos() + 8 > old(self).data().len() ==> (r matches Err(e) && e@ == truncated()
                && final(self).pos() == old(self).pos()),
    {
        let s = self.take(8)?;
        Ok(u64_from_le_bytes(s))
    }

    /// A length-prefixed field of at most `max` bytes. The length is consumed
    /// even when the field is then refused.
    pub fn bytes(&mut self, max: usize) -> (r: Result<Vec<u8>, &'static str>)
        requires
            old(self).wf(),
        ensures
            final(self).wf(),
            final(self).data() == old(self).data(),
            ({
                let d = old(self).data();
                let p = old(self).pos();
                if p + 8 > d.len() {
                    r matches Err(e) && e@ == truncated() && final(self).pos() == p
                } else {
                    let len = spec_u64_from_le_bytes(d.subrange(p as int, (p + 8) as int));
                    if len > usize::MAX {
                        r matches Err(e) && e@ == "exec field length"@ && final(self).pos() == p + 8
                    } else if len > max {
                        r matches Err(e) && e@ == "exec field exceeds bound"@ && final(self).pos()
                            == p + 8
                    } else if p + 8 + len > d.len() {
                        r matches Err(e) && e@ == truncated() && final(self).pos() == p + 8
                    } else {
                        r matches Ok(v) && v@ == d.subrange((p + 8) as int, (p + 8 + len) as int) && final(self).pos()
                            == p + 8 + len
                    }
                }
            }),
    {
        let raw = self.u64()?;
        if raw > usize::MAX as u64 {
            return Err("exec field length");
        }
        let len = raw as usize;
        if len > max {
            return Err("exec field exceeds bound");
        }
        let s = self.take(len)?;
        let mut v: Vec<u8> = Vec::new();
        append(&mut v, s);
        Ok(v)
    }

    /// Whether the whole record has been consumed.
    pub fn empty(&self) -> (r: bool)
        ensures
            r == (self.pos() == self.data().len()),
    {
        self.offset == self.bytes.len()
    }
}

/// Splits the first `length` bytes off `input`, or reports the record
/// truncated (leaving `input` alone).
pub fn take<'a>(input: &mut &'a [u8], length: usize) -> (r: Result<&'a [u8], &'static str>)
    ensures
        length <= old(input)@.len() ==> (r matches Ok(head) && head@ == old(input)@.subrange(
            0,
            length as int,
        ) && final(input)@ == old(input)@.subrange(length as int, old(input)@.len() as int)),
        length > old(input)@.len() ==> (r matches Err(e) && e@ == "truncated control state"@
            && final(input)@ == old(input)@),
{
    if length > input.len() {
        return Err("truncated control state");
    }
    let (head, tail) = input.split_at(length);
    *input = tail;
    Ok(head)
}

/// Splits a little-endian 64-bit integer off `input`.
pub fn number(input: &mut &[u8]) -> (r: Result<u64, &'static str>)
    ensures
        8 <= old(input)@.len() ==> r == Ok::<u64, &'static str>(
            spec_u64_from_le_bytes(old(input)@.subrange(0, 8)),
        ) && final(input)@ == old(input)@.subrange(8, old(input)@.len() as int),
        8 > old(input)@.len() ==> (r matches Err(e) && e@ == "truncated control state"@
            && final(input)@ == old(input)@),
{
    let head = take(input, 8)?;
    Ok(u64_from_le_bytes(head))
}

/// What a reader gives back of a writer: reading a 64-bit integer where
/// `put_u64` wrote one yields the value written.
pub proof fn lemma_u64_round_trip(prefix: Seq<u8>, value: u64, rest: Seq<u8>)
    ensures
        ({
            let d = prefix + spec_u64_to_le_bytes(value) + rest;
            &&& prefix.len() + 8 <= d.len()
            &&& spec_u64_from_le_bytes(d.subrange(prefix.len() as int, (prefix.len() + 8) as int)) == value
        }),
{
    vstd::bytes::lemma_auto_spec_u64_to_from_le_bytes();
    let d = prefix + spec_u64_to_le_bytes(value) + rest;
    assert(d.subrange(prefix.len() as int, (prefix.len() + 8) as int) =~= spec_u64_to_le_bytes(value));
}

/// Reading a length-prefixed field where `put_bytes` wrote one yields its
/// length and then exactly its bytes.
pub proof fn lemma_bytes_round_trip(prefix: Seq<u8>, field: Seq<u8>, rest: Seq<u8>)
    requires
        field.len() <= u64::MAX,
    ensures
        ({
            let d = prefix + spec_u64_to_le_bytes(field.len() as u64) + field + rest;
            let p = prefix.len();
            &&& spec_u64_from_le_bytes(d.subrange(p as int, (p + 8) as int)) == field.len()
            &&& p + 8 + field.len() <= d.len()
            &&& d.subrange((p + 8) as int, (p + 8 + field.len()) as int) == field
        }),
{
    vstd::bytes::lemma_auto_spec_u64_to_from_le_bytes();
    let d = prefix + spec_u64_to_le_bytes(field.len() as u64) + field + rest;
    let p = prefix.len();
    assert(d.subrange(p as int, (p + 8) as int) =~= spec_u64_to_le_bytes(field.len() as u64));
    assert(d.subrange((p + 8) as int, (p + 8 + field.len()) as int) =~= field);
}

} // verus!
