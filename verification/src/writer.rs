//! Length-tracking byte writer.
//!
//! Every ISOBMFF record ("box") starts with a 4-byte big-endian total length
//! and a 4-byte type tag. The writer keeps, for each record currently open, a
//! counter of how many bytes the record may still emit, seeded from the
//! length declared when the record was opened. Writing a nested record's
//! header charges the whole nested record against the counter of the
//! enclosing record, and every payload byte charges the innermost counter.
//! Closing a record requires its counter to be exactly zero, so a record is
//! statically proved to emit exactly as many bytes as it declared.

use vstd::prelude::*;

verus! {

broadcast use vstd::array::group_array_axioms;

/// Big-endian byte image of a 16-bit value.
pub open spec fn spec_be16(v: u16) -> Seq<u8> {
    seq![(v / 0x100) as u8, (v % 0x100) as u8]
}

/// Big-endian byte image of a 32-bit value.
pub open spec fn spec_be32(v: u32) -> Seq<u8> {
    seq![
        (v / 0x100_0000) as u8,
        ((v / 0x1_0000) % 0x100) as u8,
        ((v / 0x100) % 0x100) as u8,
        (v % 0x100) as u8,
    ]
}

/// Big-endian byte image of a 64-bit value.
pub open spec fn spec_be64(v: u64) -> Seq<u8> {
    seq![
        (v / 0x100_0000_0000_0000) as u8,
        ((v / 0x1_0000_0000_0000) % 0x100) as u8,
        ((v / 0x100_0000_0000) % 0x100) as u8,
        ((v / 0x1_0000_0000) % 0x100) as u8,
        ((v / 0x100_0000) % 0x100) as u8,
        ((v / 0x1_0000) % 0x100) as u8,
        ((v / 0x100) % 0x100) as u8,
        (v % 0x100) as u8,
    ]
}

/// Header of a record of `total` bytes: 4-byte length plus 4-byte tag, with
/// the escape to a 64-bit length when the total does not fit in 32 bits.
pub open spec fn spec_box_hdr(total: usize, tag: Seq<u8>) -> Seq<u8> {
    if total <= u32::MAX {
        spec_be32(total as u32) + tag
    } else {
        spec_be32(1) + spec_be64(total as u64) + tag
    }
}

/// Header of a "full" record: basic header followed by a version byte and
/// three zero flag bytes.
pub open spec fn spec_full_hdr(total: usize, tag: Seq<u8>, version: u8) -> Seq<u8> {
    spec_box_hdr(total, tag) + seq![version, 0u8, 0u8, 0u8]
}

/// True when the innermost open record (if any) still has budget for `n`
/// more bytes.
pub open spec fn spec_can_consume(cs: Seq<usize>, n: nat) -> bool {
    cs.len() > 0 ==> cs.last() >= n
}

/// Counter stack after `n` bytes have been charged to the innermost open
/// record.
pub open spec fn spec_consume(cs: Seq<usize>, n: nat) -> Seq<usize> {
    if cs.len() == 0 {
        cs
    } else {
        cs.update(cs.len() - 1, (cs.last() - n) as usize)
    }
}

/// Counter stack after the innermost record's header has been written: the
/// whole record is charged to its parent, and the header bytes are charged
/// to the record itself.
pub open spec fn spec_after_hdr(cs: Seq<usize>) -> Seq<usize> {
    let n = cs.len();
    let l = cs.last();
    let hdr: usize = if l <= u32::MAX { 8 } else { 16 };
    let popped = cs.update(n - 1, (l - hdr) as usize);
    if n >= 2 {
        popped.update(n - 2, (cs[n - 2] - l) as usize)
    } else {
        popped
    }
}

/// Charging bytes twice in a row is the same as charging their sum at once.
pub proof fn lemma_consume_add(cs: Seq<usize>, m: nat, n: nat)
    requires
        spec_can_consume(cs, m),
        spec_can_consume(spec_consume(cs, m), n),
    ensures
        spec_consume(spec_consume(cs, m), n) == spec_consume(cs, m + n),
{
    assert(spec_consume(spec_consume(cs, m), n) =~= spec_consume(cs, m + n));
}

/// Sink that counts the bytes still owed by every open record while the
/// serialized output accumulates in memory.
pub struct Writer {
    out: Vec<u8>,
    open_lens: Vec<usize>,
}

impl Writer {
    /// All bytes emitted so far.
    pub closed spec fn bytes(self) -> Seq<u8> {
        self.out@
    }

    /// Remaining byte budget of each open record, outermost first.
    pub closed spec fn counters(self) -> Seq<usize> {
        self.open_lens@
    }

    pub fn new() -> (w: Writer)
        ensures
            w.bytes() == Seq::<u8>::empty(),
            w.counters() == Seq::<usize>::empty(),
    {
        Writer { out: Vec::new(), open_lens: Vec::new() }
    }

    /// Hands back everything that was written.
    pub fn into_inner(self) -> (out: Vec<u8>)
        ensures
            out@ == self.bytes(),
    {
        self.out
    }

    /// Opens a nested record that declares a total length of `len` bytes.
    pub fn new_box(&mut self, len: usize)
        ensures
            final(self).bytes() == old(self).bytes(),
            final(self).counters() == old(self).counters().push(len),
    {
        self.open_lens.push(len);
    }

    /// Closes the innermost record, which must have spent its entire byte
    /// budget.
    pub fn end_box(&mut self)
        requires
            old(self).counters().len() >= 1,
            old(self).counters().last() == 0,
        ensures
            final(self).bytes() == old(self).bytes(),
            final(self).counters() == old(self).counters().drop_last(),
    {
        let _ = self.open_lens.pop();
        proof {
            assert(self.open_lens@ =~= old(self).open_lens@.drop_last());
        }
    }

    /// Appends raw bytes, charging them to the innermost open record.
    pub fn push(&mut self, data: &[u8])
        requires
            spec_can_consume(old(self).counters(), data@.len()),
        ensures
            final(self).bytes() == old(self).bytes() + data@,
            final(self).counters() == spec_consume(old(self).counters(), data@.len()),
    {
        let k = self.open_lens.len();
        if k > 0 {
            let top = self.open_lens[k - 1];
            self.open_lens.set(k - 1, top - data.len());
        }
        let ghost pre = self.out@;
        let mut i: usize = 0;
        while i < data.len()
            invariant
                i <= data@.len(),
                self.out@ == pre + data@.take(i as int),
                self.open_lens@ == spec_consume(old(self).open_lens@, data@.len()),
            decreases data@.len() - i,
        {
            let b = data[i];
            self.out.push(b);
            proof {
                assert(pre + data@.take(i as int) + seq![data@[i as int]]
                    =~= pre + data@.take(i + 1));
            }
            i = i + 1;
        }
        proof {
            assert(data@.take(data@.len() as int) =~= data@);
            assert(self.counters() =~= spec_consume(old(self).counters(), data@.len()));
        }
    }

    /// Writes the innermost record's basic header: its declared total length
    /// and its 4-byte type tag. The whole record is charged to the enclosing
    /// record's counter at this point.
    pub fn basic_box(&mut self, typ: [u8; 4])
        requires
            old(self).counters().len() >= 1,
            old(self).counters().last() >= spec_box_hdr(old(self).counters().last(), typ@).len(),
            old(self).counters().len() >= 2 ==> old(self).counters()[old(self).counters().len() - 2]
                >= old(self).counters().last(),
        ensures
            final(self).bytes() == old(self).bytes() + spec_box_hdr(old(self).counters().last(), typ@),
            final(self).counters() == spec_after_hdr(old(self).counters()),
    {
        let k = self.open_lens.len();
        let len = self.open_lens[k - 1];
        if k >= 2 {
            let parent = self.open_lens[k - 2];
            self.open_lens.set(k - 2, parent - len);
        }
        if len <= u32::MAX as usize {
            self.u32(len as u32);
        } else {
            self.u32(1);
            self.u64(len as u64);
        }
        self.push(typ.as_slice());
        proof {
            assert(self.counters() =~= spec_after_hdr(old(self).counters()));
        }
    }

    /// Writes a "full box" header: basic header, version byte, three zero
    /// flag bytes.
    pub fn full_box(&mut self, typ: [u8; 4], version: u8)
        requires
            old(self).counters().len() >= 1,
            old(self).counters().last() >= 12,
            old(self).counters().last() <= u32::MAX,
            old(self).counters().len() >= 2 ==> old(self).counters()[old(self).counters().len() - 2]
                >= old(self).counters().last(),
        ensures
            final(self).bytes() == old(self).bytes()
                + spec_full_hdr(old(self).counters().last(), typ@, version),
            final(self).counters() == spec_consume(spec_after_hdr(old(self).counters()), 4),
    {
        self.basic_box(typ);
        let flags = [version, 0u8, 0u8, 0u8];
        proof {
            assert(flags@ =~= seq![version, 0u8, 0u8, 0u8]);
        }
        self.push(flags.as_slice());
    }

    /// Appends one byte.
    pub fn u8(&mut self, val: u8)
        requires
            spec_can_consume(old(self).counters(), 1),
        ensures
            final(self).bytes() == old(self).bytes() + seq![val],
            final(self).counters() == spec_consume(old(self).counters(), 1),
    {
        let b = [val];
        proof {
            assert(b@ =~= seq![val]);
        }
        self.push(b.as_slice());
    }

    /// Appends a 16-bit value in big-endian order.
    pub fn u16(&mut self, val: u16)
        requires
            spec_can_consume(old(self).counters(), 2),
        ensures
            final(self).bytes() == old(self).bytes() + spec_be16(val),
            final(self).counters() == spec_consume(old(self).counters(), 2),
    {
        let b = [(val / 0x100) as u8, (val % 0x100) as u8];
        proof {
            assert(b@ =~= spec_be16(val));
        }
        self.push(b.as_slice());
    }

    /// Appends a 32-bit value in big-endian order.
    pub fn u32(&mut self, val: u32)
        requires
            spec_can_consume(old(self).counters(), 4),
        ensures
            final(self).bytes() == old(self).bytes() + spec_be32(val),
            final(self).counters() == spec_consume(old(self).counters(), 4),
    {
        let b = [
            (val / 0x100_0000) as u8,
            ((val / 0x1_0000) % 0x100) as u8,
            ((val / 0x100) % 0x100) as u8,
            (val % 0x100) as u8,
        ];
        proof {
            assert(b@ =~= spec_be32(val));
        }
        self.push(b.as_slice());
    }

    /// Appends a 64-bit value in big-endian order.
    pub fn u64(&mut self, val: u64)
        requires
            spec_can_consume(old(self).counters(), 8),
        ensures
            final(self).bytes() == old(self).bytes() + spec_be64(val),
            final(self).counters() == spec_consume(old(self).counters(), 8),
    {
        let b = [
            (val / 0x100_0000_0000_0000) as u8,
            ((val / 0x1_0000_0000_0000) % 0x100) as u8,
            ((val / 0x100_0000_0000) % 0x100) as u8,
            ((val / 0x1_0000_0000) % 0x100) as u8,
            ((val / 0x100_0000) % 0x100) as u8,
            ((val / 0x1_0000) % 0x100) as u8,
            ((val / 0x100) % 0x100) as u8,
            (val % 0x100) as u8,
        ];
        proof {
            assert(b@ =~= spec_be64(val));
        }
        self.push(b.as_slice());
    }
}

} // verus!
