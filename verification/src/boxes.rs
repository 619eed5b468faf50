//! The record ("box") tree of a minimal AVIF file.
//!
//! Each record type states its exact serialized bytes as a spec function,
//! and its `len` and `write` are proved against it: `len` returns exactly
//! the number of bytes `write` emits, which is the structural invariant the
//! whole container format depends on.

use crate::constants::ColorPrimaries;
use crate::constants::MatrixCoefficients;
use crate::constants::TransferCharacteristics;
use crate::writer::Writer;
use crate::writer::spec_be16;
use crate::writer::spec_be32;
use crate::writer::spec_box_hdr;
use crate::writer::spec_full_hdr;
use crate::writer::spec_can_consume;
use crate::writer::spec_consume;
use crate::writer::spec_after_hdr;
use vstd::prelude::*;

verus! {

broadcast use vstd::array::group_array_axioms;

/// Concatenation of a sequence of byte strings.
pub open spec fn concat_bytes(s: Seq<Seq<u8>>) -> Seq<u8>
    decreases s.len(),
{
    if s.len() == 0 {
        Seq::empty()
    } else {
        s[0] + concat_bytes(s.skip(1))
    }
}

/// Appending one more byte string extends the concatenation at the end.
pub proof fn lemma_concat_bytes_push(s: Seq<Seq<u8>>, x: Seq<u8>)
    ensures
        concat_bytes(s.push(x)) == concat_bytes(s) + x,
    decreases s.len(),
{
    if s.len() == 0 {
        assert(s.push(x).skip(1) =~= Seq::<Seq<u8>>::empty());
        assert(concat_bytes(s.push(x).skip(1)) =~= Seq::<u8>::empty());
        assert(concat_bytes(s.push(x)) =~= s.push(x)[0] + concat_bytes(s.push(x).skip(1)));
        assert(concat_bytes(s.push(x)) =~= concat_bytes(s) + x);
    } else {
        lemma_concat_bytes_push(s.skip(1), x);
        assert(s.push(x).skip(1) =~= s.skip(1).push(x));
        assert(concat_bytes(s.push(x)) =~= concat_bytes(s) + x);
    }
}

/// A concatenation splits at any index into the concatenation of the prefix
/// and of the suffix.
pub proof fn lemma_concat_bytes_split(s: Seq<Seq<u8>>, i: int)
    requires
        0 <= i <= s.len(),
    ensures
        concat_bytes(s) == concat_bytes(s.take(i)) + concat_bytes(s.skip(i)),
    decreases i,
{
    if i == 0 {
        assert(s.take(0) =~= Seq::<Seq<u8>>::empty());
        assert(s.skip(0) =~= s);
    } else {
        lemma_concat_bytes_split(s.skip(1), i - 1);
        assert(s.take(i).skip(1) =~= s.skip(1).take(i - 1));
        assert(s.skip(i) =~= s.skip(1).skip(i - 1));
        assert(s.take(i).len() > 0);
        assert(s.take(i)[0] == s[0]);
        assert(concat_bytes(s) =~= concat_bytes(s.take(i)) + concat_bytes(s.skip(i)));
    }
}

/// A 4-byte sequence.
pub open spec fn spec_four(a: u8, b: u8, c: u8, d: u8) -> Seq<u8> {
    seq![a, b, c, d]
}

/// A 4-byte array with a known view, for record type tags.
pub fn four(a: u8, b: u8, c: u8, d: u8) -> (r: [u8; 4])
    ensures
        r@ == spec_four(a, b, c, d),
{
    let r = [a, b, c, d];
    proof {
        assert(r@ =~= seq![a, b, c, d]);
    }
    r
}

// Type tags of the records of an AVIF file, as byte sequences.
pub open spec fn spec_tag_ftyp() -> Seq<u8> { spec_four(0x66, 0x74, 0x79, 0x70) }
pub open spec fn spec_tag_avif() -> Seq<u8> { spec_four(0x61, 0x76, 0x69, 0x66) }
pub open spec fn spec_tag_mif1() -> Seq<u8> { spec_four(0x6d, 0x69, 0x66, 0x31) }
pub open spec fn spec_tag_miaf() -> Seq<u8> { spec_four(0x6d, 0x69, 0x61, 0x66) }
pub open spec fn spec_tag_meta() -> Seq<u8> { spec_four(0x6d, 0x65, 0x74, 0x61) }
pub open spec fn spec_tag_hdlr() -> Seq<u8> { spec_four(0x68, 0x64, 0x6c, 0x72) }
pub open spec fn spec_tag_pict() -> Seq<u8> { spec_four(0x70, 0x69, 0x63, 0x74) }
pub open spec fn spec_tag_pitm() -> Seq<u8> { spec_four(0x70, 0x69, 0x74, 0x6d) }
pub open spec fn spec_tag_iloc() -> Seq<u8> { spec_four(0x69, 0x6c, 0x6f, 0x63) }
pub open spec fn spec_tag_iinf() -> Seq<u8> { spec_four(0x69, 0x69, 0x6e, 0x66) }
pub open spec fn spec_tag_infe() -> Seq<u8> { spec_four(0x69, 0x6e, 0x66, 0x65) }
pub open spec fn spec_tag_av01() -> Seq<u8> { spec_four(0x61, 0x76, 0x30, 0x31) }
pub open spec fn spec_tag_iref() -> Seq<u8> { spec_four(0x69, 0x72, 0x65, 0x66) }
pub open spec fn spec_tag_auxl() -> Seq<u8> { spec_four(0x61, 0x75, 0x78, 0x6c) }
pub open spec fn spec_tag_prem() -> Seq<u8> { spec_four(0x70, 0x72, 0x65, 0x6d) }
pub open spec fn spec_tag_iprp() -> Seq<u8> { spec_four(0x69, 0x70, 0x72, 0x70) }
pub open spec fn spec_tag_ipco() -> Seq<u8> { spec_four(0x69, 0x70, 0x63, 0x6f) }
pub open spec fn spec_tag_ipma() -> Seq<u8> { spec_four(0x69, 0x70, 0x6d, 0x61) }
pub open spec fn spec_tag_av1c() -> Seq<u8> { spec_four(0x61, 0x76, 0x31, 0x43) }
pub open spec fn spec_tag_pixi() -> Seq<u8> { spec_four(0x70, 0x69, 0x78, 0x69) }
pub open spec fn spec_tag_ispe() -> Seq<u8> { spec_four(0x69, 0x73, 0x70, 0x65) }
pub open spec fn spec_tag_auxc() -> Seq<u8> { spec_four(0x61, 0x75, 0x78, 0x43) }
pub open spec fn spec_tag_colr() -> Seq<u8> { spec_four(0x63, 0x6f, 0x6c, 0x72) }
pub open spec fn spec_tag_nclx() -> Seq<u8> { spec_four(0x6e, 0x63, 0x6c, 0x78) }
pub open spec fn spec_tag_mdat() -> Seq<u8> { spec_four(0x6d, 0x64, 0x61, 0x74) }

/// A whole record: basic header declaring the total length, then the body.
pub open spec fn spec_boxed(tag: Seq<u8>, body: Seq<u8>) -> Seq<u8> {
    spec_box_hdr((8 + body.len()) as usize, tag) + body
}

/// A whole "full" record: header with version and flag bytes, then the body.
pub open spec fn spec_full_boxed(tag: Seq<u8>, version: u8, body: Seq<u8>) -> Seq<u8> {
    spec_full_hdr((12 + body.len()) as usize, tag, version) + body
}

/// Capability shared by every record: it can state its exact serialized
/// bytes, compute their count, and emit them through the writer.
pub trait MpegBox {
    /// Structural conditions under which the record can be sized: bounded
    /// children and a total length that fits the 32-bit length field.
    spec fn wf(&self) -> bool;

    /// Additional conditions under which the record may be serialized.
    spec fn writable(&self) -> bool;

    /// The exact bytes the record serializes to.
    spec fn spec_bytes(&self) -> Seq<u8>;

    /// Declared length: exactly the number of bytes `write` emits.
    fn len(&self) -> (r: usize)
        requires
            self.wf(),
        ensures
            r == self.spec_bytes().len(),
    ;

    /// Emits the record, charging exactly its declared length to the
    /// enclosing record's counter.
    fn write(&self, w: &mut Writer)
        requires
            self.wf(),
            self.writable(),
            spec_can_consume(old(w).counters(), self.spec_bytes().len()),
        ensures
            final(w).bytes() == old(w).bytes() + self.spec_bytes(),
            final(w).counters() == spec_consume(old(w).counters(), self.spec_bytes().len()),
    ;
}

/// 4-byte record type tag.
#[derive(Debug, Copy, Clone)]
pub struct FourCC(pub [u8; 4]);

/// Image Spatial Extents: pixel dimensions.
#[derive(Debug, Copy, Clone)]
pub struct IspeBox {
    pub width: u32,
    pub height: u32,
}

impl MpegBox for IspeBox {
    open spec fn wf(&self) -> bool {
        true
    }

    open spec fn writable(&self) -> bool {
        true
    }

    open spec fn spec_bytes(&self) -> Seq<u8> {
        spec_full_boxed(spec_tag_ispe(), 0, spec_be32(self.width) + spec_be32(self.height))
    }

    fn len(&self) -> (r: usize) {
        12 + 4 + 4
    }

    fn write(&self, w: &mut Writer) {
        proof {
            assert(self.spec_bytes().len() == 20);
        }
        w.new_box(self.len());
        w.full_box(four(0x69, 0x73, 0x70, 0x65), 0);
        w.u32(self.width);
        w.u32(self.height);
        w.end_box();
        proof {
            assert(w.bytes() =~= old(w).bytes() + self.spec_bytes());
            assert(w.counters() =~= spec_consume(old(w).counters(), self.spec_bytes().len()));
        }
    }
}

/// Primary Item: the id of the item a reader should display.
#[derive(Debug, Copy, Clone)]
pub struct PitmBox(pub u16);

impl MpegBox for PitmBox {
    open spec fn wf(&self) -> bool {
        true
    }

    open spec fn writable(&self) -> bool {
        true
    }

    open spec fn spec_bytes(&self) -> Seq<u8> {
        spec_full_boxed(spec_tag_pitm(), 0, spec_be16(self.0))
    }

    fn len(&self) -> (r: usize) {
        12 + 2
    }

    fn write(&self, w: &mut Writer) {
        proof {
            assert(self.spec_bytes().len() == 14);
        }
        w.new_box(self.len());
        w.full_box(four(0x70, 0x69, 0x74, 0x6d), 0);
        w.u16(self.0);
        w.end_box();
        proof {
            assert(w.bytes() =~= old(w).bytes() + self.spec_bytes());
            assert(w.counters() =~= spec_consume(old(w).counters(), self.spec_bytes().len()));
        }
    }
}

/// Handler record: fixed bytes declaring the content as a picture.
#[derive(Debug, Clone)]
pub struct HdlrBox {}

impl MpegBox for HdlrBox {
    open spec fn wf(&self) -> bool {
        true
    }

    open spec fn writable(&self) -> bool {
        true
    }

    open spec fn spec_bytes(&self) -> Seq<u8> {
        spec_full_boxed(
            spec_tag_hdlr(),
            0,
            spec_be32(0) + spec_tag_pict() + spec_be32(0) + spec_be32(0) + spec_be32(0)
                + seq![0u8],
        )
    }

    fn len(&self) -> (r: usize) {
        12 + 4 + 4 + 13
    }

    fn write(&self, w: &mut Writer) {
        proof {
            assert(self.spec_bytes().len() == 33);
        }
        w.new_box(self.len());
        w.full_box(four(0x68, 0x64, 0x6c, 0x72), 0);
        w.u32(0);
        w.push(four(0x70, 0x69, 0x63, 0x74).as_slice());
        w.u32(0);
        w.u32(0);
        w.u32(0);
        w.u8(0);
        w.end_box();
        proof {
            assert(w.bytes() =~= old(w).bytes() + self.spec_bytes());
            assert(w.counters() =~= spec_consume(old(w).counters(), self.spec_bytes().len()));
        }
    }
}

/// Marker record for an auxiliary item such as an alpha or depth plane.
#[derive(Debug, Copy, Clone)]
pub struct AuxlBox {}

impl MpegBox for AuxlBox {
    open spec fn wf(&self) -> bool {
        true
    }

    open spec fn writable(&self) -> bool {
        true
    }

    open spec fn spec_bytes(&self) -> Seq<u8> {
        spec_full_boxed(spec_tag_auxl(), 0, Seq::empty())
    }

    fn len(&self) -> (r: usize) {
        12
    }

    fn write(&self, w: &mut Writer) {
        proof {
            assert(self.spec_bytes().len() == 12);
        }
        w.new_box(self.len());
        w.full_box(four(0x61, 0x75, 0x78, 0x6c), 0);
        w.end_box();
        proof {
            assert(w.bytes() =~= old(w).bytes() + self.spec_bytes());
            assert(w.counters() =~= spec_consume(old(w).counters(), self.spec_bytes().len()));
        }
    }
}

/// Color information record, "nclx" flavor: the four color-characteristic
/// code points, with the full-range flag packed in the top bit of the last
/// byte.
#[derive(Debug, Copy, Clone, PartialEq, Eq, Structural)]
pub struct ColrBox {
    pub color_primaries: ColorPrimaries,
    pub transfer_characteristics: TransferCharacteristics,
    pub matrix_coefficients: MatrixCoefficients,
    pub full_range_flag: bool,
}

/// The defaults a decoder assumes when no color-information record is
/// present; the record is emitted only when the caller overrides one of
/// them.
pub open spec fn spec_colr_default() -> ColrBox {
    ColrBox {
        color_primaries: ColorPrimaries::Bt709,
        transfer_characteristics: TransferCharacteristics::Srgb,
        matrix_coefficients: MatrixCoefficients::Bt601,
        full_range_flag: true,
    }
}

impl Default for ColrBox {
    fn default() -> (r: Self)
        ensures
            r == spec_colr_default(),
    {
        ColrBox {
            color_primaries: ColorPrimaries::Bt709,
            transfer_characteristics: TransferCharacteristics::Srgb,
            matrix_coefficients: MatrixCoefficients::Bt601,
            full_range_flag: true,
        }
    }
}

impl MpegBox for ColrBox {
    open spec fn wf(&self) -> bool {
        true
    }

    open spec fn writable(&self) -> bool {
        true
    }

    open spec fn spec_bytes(&self) -> Seq<u8> {
        spec_boxed(
            spec_tag_colr(),
            spec_tag_nclx() + spec_be16(self.color_primaries.spec_code())
                + spec_be16(self.transfer_characteristics.spec_code())
                + spec_be16(self.matrix_coefficients.spec_code())
                + seq![if self.full_range_flag { 0x80u8 } else { 0u8 }],
        )
    }

    fn len(&self) -> (r: usize) {
        8 + 4 + 2 + 2 + 2 + 1
    }

    fn write(&self, w: &mut Writer) {
        proof {
            assert(self.spec_bytes().len() == 19);
        }
        w.new_box(self.len());
        w.basic_box(four(0x63, 0x6f, 0x6c, 0x72));
        w.push(four(0x6e, 0x63, 0x6c, 0x78).as_slice());
        w.u16(self.color_primaries.code());
        w.u16(self.transfer_characteristics.code());
        w.u16(self.matrix_coefficients.code());
        w.u8(if self.full_range_flag { 0x80 } else { 0 });
        w.end_box();
        proof {
            assert(w.bytes() =~= old(w).bytes() + self.spec_bytes());
            assert(w.counters() =~= spec_consume(old(w).counters(), self.spec_bytes().len()));
        }
    }
}

/// AV1 codec configuration record: nine semantic fields packed into four
/// bytes with a fixed bit layout.
#[derive(Debug, Copy, Clone)]
pub struct Av1CBox {
    pub seq_profile: u8,
    pub seq_level_idx_0: u8,
    pub seq_tier_0: bool,
    pub high_bitdepth: bool,
    pub twelve_bit: bool,
    pub monochrome: bool,
    pub chroma_subsampling_x: bool,
    pub chroma_subsampling_y: bool,
    pub chroma_sample_position: u8,
}

impl Av1CBox {
    /// Second payload byte: profile in the top 3 bits, level in the low 5.
    pub open spec fn spec_profile_byte(&self) -> u8 {
        (self.seq_profile << 5) | self.seq_level_idx_0
    }

    /// Third payload byte: tier, depth, monochrome and chroma flags.
    pub open spec fn spec_flags_byte(&self) -> u8 {
        (if self.seq_tier_0 { 0x80u8 } else { 0u8 })
            | (if self.high_bitdepth { 0x40u8 } else { 0u8 })
            | (if self.twelve_bit { 0x20u8 } else { 0u8 })
            | (if self.monochrome { 0x10u8 } else { 0u8 })
            | (if self.chroma_subsampling_x { 0x08u8 } else { 0u8 })
            | (if self.chroma_subsampling_y { 0x04u8 } else { 0u8 })
            | self.chroma_sample_position
    }
}

impl MpegBox for Av1CBox {
    open spec fn wf(&self) -> bool {
        true
    }

    open spec fn writable(&self) -> bool {
        true
    }

    open spec fn spec_bytes(&self) -> Seq<u8> {
        spec_boxed(
            spec_tag_av1c(),
            seq![0x81u8, self.spec_profile_byte(), self.spec_flags_byte(), 0u8],
        )
    }

    fn len(&self) -> (r: usize) {
        8 + 4
    }

    fn write(&self, w: &mut Writer) {
        proof {
            assert(self.spec_bytes().len() == 12);
        }
        w.new_box(self.len());
        w.basic_box(four(0x61, 0x76, 0x31, 0x43));
        let profile_byte = (self.seq_profile << 5) | self.seq_level_idx_0;
        let flags_byte = (if self.seq_tier_0 { 0x80u8 } else { 0u8 })
            | (if self.high_bitdepth { 0x40u8 } else { 0u8 })
            | (if self.twelve_bit { 0x20u8 } else { 0u8 })
            | (if self.monochrome { 0x10u8 } else { 0u8 })
            | (if self.chroma_subsampling_x { 0x08u8 } else { 0u8 })
            | (if self.chroma_subsampling_y { 0x04u8 } else { 0u8 })
            | self.chroma_sample_position;
        let payload = [0x81u8, profile_byte, flags_byte, 0u8];
        proof {
            assert(payload@ =~= seq![0x81u8, self.spec_profile_byte(), self.spec_flags_byte(), 0u8]);
        }
        w.push(payload.as_slice());
        w.end_box();
        proof {
            assert(w.bytes() =~= old(w).bytes() + self.spec_bytes());
            assert(w.counters() =~= spec_consume(old(w).counters(), self.spec_bytes().len()));
        }
    }
}

/// Pixel information record: bit depth of each channel.
#[derive(Debug, Copy, Clone)]
pub struct PixiBox {
    pub depth: u8,
    pub channels: u8,
}

impl PixiBox {
    /// Structural conditions under which the record can be sized.
    pub open spec fn wf(&self) -> bool {
        true
    }

    /// The exact bytes the record serializes to.
    pub open spec fn spec_bytes(&self) -> Seq<u8> {
        spec_full_boxed(
            spec_tag_pixi(),
            0,
            seq![self.channels] + Seq::new(self.channels as nat, |i: int| self.depth),
        )
    }

    pub fn len(&self) -> (r: usize)
        ensures
            r == self.spec_bytes().len(),
    {
        12 + 1 + self.channels as usize
    }

    pub fn write(&self, w: &mut Writer)
        requires
            spec_can_consume(old(w).counters(), self.spec_bytes().len()),
        ensures
            final(w).bytes() == old(w).bytes() + self.spec_bytes(),
            final(w).counters() == spec_consume(old(w).counters(), self.spec_bytes().len()),
    {
        proof {
            assert(self.spec_bytes().len() == 13 + self.channels);
        }
        w.new_box(self.len());
        w.full_box(four(0x70, 0x69, 0x78, 0x69), 0);
        w.u8(self.channels);
        let ghost mid_bytes = w.bytes();
        let ghost mid_cs = w.counters();
        let mut i: u8 = 0;
        while i < self.channels
            invariant
                i <= self.channels,
                w.bytes() == mid_bytes + Seq::new(i as nat, |j: int| self.depth),
                w.counters() == spec_consume(mid_cs, i as nat),
                spec_can_consume(mid_cs, self.channels as nat),
            decreases self.channels - i,
        {
            w.u8(self.depth);
            proof {
                crate::writer::lemma_consume_add(mid_cs, i as nat, 1);
                assert(Seq::new(i as nat, |j: int| self.depth).push(self.depth)
                    =~= Seq::new((i + 1) as nat, |j: int| self.depth));
                assert(mid_bytes + Seq::new(i as nat, |j: int| self.depth) + seq![self.depth]
                    =~= mid_bytes + Seq::new((i + 1) as nat, |j: int| self.depth));
            }
            i = i + 1;
        }
        w.end_box();
        proof {
            assert(w.bytes() =~= old(w).bytes() + self.spec_bytes());
            assert(w.counters() =~= spec_consume(old(w).counters(), self.spec_bytes().len()));
        }
    }
}

/// Auxiliary-type record: the urn that marks an item as an alpha plane.
#[derive(Debug, Clone)]
pub struct AuxCBox {
    pub urn: Vec<u8>,
}

/// The urn identifying an alpha channel,
/// `urn:mpeg:mpegB:cicp:systems:auxiliary:alpha`.
pub open spec fn spec_alpha_urn() -> Seq<u8> {
    seq![
        0x75u8, 0x72u8, 0x6eu8, 0x3au8, 0x6du8, 0x70u8, 0x65u8, 0x67u8, 0x3au8, 0x6du8, 0x70u8,
        0x65u8, 0x67u8, 0x42u8, 0x3au8, 0x63u8, 0x69u8, 0x63u8, 0x70u8, 0x3au8, 0x73u8, 0x79u8,
        0x73u8, 0x74u8, 0x65u8, 0x6du8, 0x73u8, 0x3au8, 0x61u8, 0x75u8, 0x78u8, 0x69u8, 0x6cu8,
        0x69u8, 0x61u8, 0x72u8, 0x79u8, 0x3au8, 0x61u8, 0x6cu8, 0x70u8, 0x68u8, 0x61u8,
    ]
}

/// The alpha-channel urn as a byte vector.
pub fn alpha_urn() -> (v: Vec<u8>)
    ensures
        v@ == spec_alpha_urn(),
{
    let a = [
        0x75u8, 0x72u8, 0x6eu8, 0x3au8, 0x6du8, 0x70u8, 0x65u8, 0x67u8, 0x3au8, 0x6du8, 0x70u8,
        0x65u8, 0x67u8, 0x42u8, 0x3au8, 0x63u8, 0x69u8, 0x63u8, 0x70u8, 0x3au8, 0x73u8, 0x79u8,
        0x73u8, 0x74u8, 0x65u8, 0x6du8, 0x73u8, 0x3au8, 0x61u8, 0x75u8, 0x78u8, 0x69u8, 0x6cu8,
        0x69u8, 0x61u8, 0x72u8, 0x79u8, 0x3au8, 0x61u8, 0x6cu8, 0x70u8, 0x68u8, 0x61u8,
    ];
    proof {
        assert(a@ =~= spec_alpha_urn());
    }
    vstd::slice::slice_to_vec(a.as_slice())
}

impl AuxCBox {
    /// Structural conditions under which the record can be sized.
    pub open spec fn wf(&self) -> bool {
        self.urn@.len() + 13 <= u32::MAX
    }

    /// The exact bytes the record serializes to.
    pub open spec fn spec_bytes(&self) -> Seq<u8> {
        spec_full_boxed(spec_tag_auxc(), 0, self.urn@ + seq![0u8])
    }

    pub fn len(&self) -> (r: usize)
        requires
            self.wf(),
        ensures
            r == self.spec_bytes().len(),
    {
        12 + self.urn.len() + 1
    }

    pub fn write(&self, w: &mut Writer)
        requires
            self.wf(),
            spec_can_consume(old(w).counters(), self.spec_bytes().len()),
        ensures
            final(w).bytes() == old(w).bytes() + self.spec_bytes(),
            final(w).counters() == spec_consume(old(w).counters(), self.spec_bytes().len()),
    {
        proof {
            assert(self.spec_bytes().len() == 13 + self.urn@.len());
        }
        w.new_box(self.len());
        w.full_box(four(0x61, 0x75, 0x78, 0x43), 0);
        w.push(self.urn.as_slice());
        w.u8(0);
        w.end_box();
        proof {
            assert(w.bytes() =~= old(w).bytes() + self.spec_bytes());
            assert(w.counters() =~= spec_consume(old(w).counters(), self.spec_bytes().len()));
        }
    }
}

/// Item Info Entry: declares one item id with its codec tag and name.
#[derive(Debug, Clone)]
pub struct InfeBox {
    pub id: u16,
    pub typ: FourCC,
    pub name: Vec<u8>,
}

impl MpegBox for InfeBox {
    open spec fn wf(&self) -> bool {
        self.name@.len() + 21 <= u32::MAX
    }

    open spec fn writable(&self) -> bool {
        true
    }

    open spec fn spec_bytes(&self) -> Seq<u8> {
        spec_full_boxed(
            spec_tag_infe(),
            2,
            spec_be16(self.id) + spec_be16(0) + self.typ.0@ + self.name@ + seq![0u8],
        )
    }

    fn len(&self) -> (r: usize) {
        proof {
            assert(self.spec_bytes().len() == 21 + self.name@.len());
        }
        12 + 2 + 2 + 4 + self.name.len() + 1
    }

    fn write(&self, w: &mut Writer) {
        proof {
            assert(self.spec_bytes().len() == 21 + self.name@.len());
        }
        w.new_box(self.len());
        w.full_box(four(0x69, 0x6e, 0x66, 0x65), 2);
        w.u16(self.id);
        w.u16(0);
        w.push(self.typ.0.as_slice());
        w.push(self.name.as_slice());
        w.u8(0);
        w.end_box();
        proof {
            assert(w.bytes() =~= old(w).bytes() + self.spec_bytes());
            assert(w.counters() =~= spec_consume(old(w).counters(), self.spec_bytes().len()));
        }
    }
}

/// One directed reference edge between two items, e.g. "alpha is auxiliary
/// to color".
#[derive(Debug, Copy, Clone)]
pub struct IrefEntryBox {
    pub from_id: u16,
    pub to_id: u16,
    pub typ: FourCC,
}

impl MpegBox for IrefEntryBox {
    open spec fn wf(&self) -> bool {
        true
    }

    open spec fn writable(&self) -> bool {
        true
    }

    open spec fn spec_bytes(&self) -> Seq<u8> {
        spec_boxed(self.typ.0@, spec_be16(self.from_id) + spec_be16(1) + spec_be16(self.to_id))
    }

    fn len(&self) -> (r: usize) {
        8 + 2 + 2 + 2
    }

    fn write(&self, w: &mut Writer) {
        proof {
            assert(self.spec_bytes().len() == 14);
        }
        w.new_box(self.len());
        w.basic_box(self.typ.0);
        w.u16(self.from_id);
        w.u16(1);
        w.u16(self.to_id);
        w.end_box();
        proof {
            assert(w.bytes() =~= old(w).bytes() + self.spec_bytes());
            assert(w.counters() =~= spec_consume(old(w).counters(), self.spec_bytes().len()));
        }
    }
}

/// Item Reference record holding a single edge.
#[derive(Debug, Copy, Clone)]
pub struct IrefBox {
    pub entry: IrefEntryBox,
}

impl MpegBox for IrefBox {
    open spec fn wf(&self) -> bool {
        true
    }

    open spec fn writable(&self) -> bool {
        true
    }

    open spec fn spec_bytes(&self) -> Seq<u8> {
        spec_full_boxed(spec_tag_iref(), 0, self.entry.spec_bytes())
    }

    fn len(&self) -> (r: usize) {
        12 + 14
    }

    fn write(&self, w: &mut Writer) {
        proof {
            assert(self.entry.spec_bytes().len() == 14);
            assert(self.spec_bytes().len() == 26);
        }
        w.new_box(self.len());
        w.full_box(four(0x69, 0x72, 0x65, 0x66), 0);
        self.entry.write(w);
        w.end_box();
        proof {
            assert(w.bytes() =~= old(w).bytes() + self.spec_bytes());
            assert(w.counters() =~= spec_consume(old(w).counters(), self.spec_bytes().len()));
        }
    }
}

/// One item property: a record stored once in the property container and
/// referenced by index from the items it applies to.
#[derive(Debug, Clone)]
#[non_exhaustive]
pub enum IpcoProp {
    Av1C(Av1CBox),
    Pixi(PixiBox),
    Ispe(IspeBox),
    AuxC(AuxCBox),
    Colr(ColrBox),
}

impl IpcoProp {
    /// Structural conditions under which the property can be sized.
    pub open spec fn wf(&self) -> bool {
        match self {
            IpcoProp::Av1C(p) => p.wf(),
            IpcoProp::Pixi(p) => p.wf(),
            IpcoProp::Ispe(p) => p.wf(),
            IpcoProp::AuxC(p) => p.wf(),
            IpcoProp::Colr(p) => p.wf(),
        }
    }

    /// The exact bytes the property serializes to.
    pub open spec fn spec_bytes(&self) -> Seq<u8> {
        match self {
            IpcoProp::Av1C(p) => p.spec_bytes(),
            IpcoProp::Pixi(p) => p.spec_bytes(),
            IpcoProp::Ispe(p) => p.spec_bytes(),
            IpcoProp::AuxC(p) => p.spec_bytes(),
            IpcoProp::Colr(p) => p.spec_bytes(),
        }
    }

    pub fn len(&self) -> (r: usize)
        requires
            self.wf(),
        ensures
            r == self.spec_bytes().len(),
    {
        match self {
            IpcoProp::Av1C(p) => p.len(),
            IpcoProp::Pixi(p) => p.len(),
            IpcoProp::Ispe(p) => p.len(),
            IpcoProp::AuxC(p) => p.len(),
            IpcoProp::Colr(p) => p.len(),
        }
    }

    pub fn write(&self, w: &mut Writer)
        requires
            self.wf(),
            spec_can_consume(old(w).counters(), self.spec_bytes().len()),
        ensures
            final(w).bytes() == old(w).bytes() + self.spec_bytes(),
            final(w).counters() == spec_consume(old(w).counters(), self.spec_bytes().len()),
    {
        match self {
            IpcoProp::Av1C(p) => p.write(w),
            IpcoProp::Pixi(p) => p.write(w),
            IpcoProp::Ispe(p) => p.write(w),
            IpcoProp::AuxC(p) => p.write(w),
            IpcoProp::Colr(p) => p.write(w),
        }
    }
}

/// Item Property Container: the deduplicated store of properties, referenced
/// by 1-based index.
#[derive(Debug, Clone)]
pub struct IpcoBox {
    props: Vec<IpcoProp>,
}

impl IpcoBox {
    /// The stored properties, in index order.
    pub closed spec fn spec_props(&self) -> Seq<IpcoProp> {
        self.props@
    }

    /// Byte images of the stored properties.
    pub open spec fn spec_prop_bytes(&self) -> Seq<Seq<u8>> {
        self.spec_props().map_values(|p: IpcoProp| p.spec_bytes())
    }

    /// Body of the container record: the properties back to back.
    pub open spec fn spec_body(&self) -> Seq<u8> {
        concat_bytes(self.spec_prop_bytes())
    }

    pub fn new() -> (r: Self)
        ensures
            r.spec_props() == Seq::<IpcoProp>::empty(),
    {
        IpcoBox { props: Vec::new() }
    }

    /// Stores one property and returns its 1-based index.
    pub fn push(&mut self, prop: IpcoProp) -> (r: u8)
        requires
            old(self).spec_props().len() < 7,
        ensures
            final(self).spec_props() == old(self).spec_props().push(prop),
            r == old(self).spec_props().len() + 1,
    {
        self.props.push(prop);
        self.props.len() as u8
    }
}

impl MpegBox for IpcoBox {
    open spec fn wf(&self) -> bool {
        &&& self.spec_props().len() <= 7
        &&& forall|i: int| 0 <= i < self.spec_props().len() ==> (#[trigger] self.spec_props()[i]).wf()
        &&& 8 + self.spec_body().len() <= u32::MAX
    }

    open spec fn writable(&self) -> bool {
        true
    }

    open spec fn spec_bytes(&self) -> Seq<u8> {
        spec_boxed(spec_tag_ipco(), self.spec_body())
    }

    fn len(&self) -> (r: usize) {
        let ghost m = self.spec_prop_bytes();
        let mut total: usize = 8;
        let mut i: usize = 0;
        while i < self.props.len()
            invariant
                0 <= i <= self.props@.len(),
                self.wf(),
                m == self.spec_prop_bytes(),
                total == 8 + concat_bytes(m.take(i as int)).len(),
            decreases self.props@.len() - i,
        {
            proof {
                lemma_concat_bytes_split(m, i as int);
                assert(concat_bytes(m.skip(i as int))
                    == m[i as int] + concat_bytes(m.skip(i as int).skip(1)));
                lemma_concat_bytes_push(m.take(i as int), m[i as int]);
                assert(m.take(i as int).push(m[i as int]) =~= m.take(i as int + 1));
            }
            total = total + self.props[i].len();
            i = i + 1;
        }
        proof {
            assert(m.take(self.props@.len() as int) =~= m);
        }
        total
    }

    fn write(&self, w: &mut Writer) {
        let ghost m = self.spec_prop_bytes();
        proof {
            assert(self.spec_bytes().len() == 8 + self.spec_body().len());
        }
        let total = self.len();
        w.new_box(total);
        w.basic_box(four(0x69, 0x70, 0x63, 0x6f));
        let ghost mid_bytes = w.bytes();
        let ghost mid_cs = w.counters();
        let mut i: usize = 0;
        while i < self.props.len()
            invariant
                0 <= i <= self.props@.len(),
                self.wf(),
                m == self.spec_prop_bytes(),
                mid_cs.len() >= 1,
                mid_cs.last() == concat_bytes(m).len(),
                w.bytes() == mid_bytes + concat_bytes(m.take(i as int)),
                w.counters() == spec_consume(mid_cs, concat_bytes(m.take(i as int)).len()),
            decreases self.props@.len() - i,
        {
            proof {
                lemma_concat_bytes_split(m, i as int);
                assert(concat_bytes(m.skip(i as int))
                    == m[i as int] + concat_bytes(m.skip(i as int).skip(1)));
            }
            self.props[i].write(w);
            proof {
                lemma_concat_bytes_push(m.take(i as int), m[i as int]);
                assert(m.take(i as int).push(m[i as int]) =~= m.take(i as int + 1));
                crate::writer::lemma_consume_add(
                    mid_cs,
                    concat_bytes(m.take(i as int)).len(),
                    m[i as int].len(),
                );
            }
            i = i + 1;
        }
        proof {
            assert(m.take(self.props@.len() as int) =~= m);
        }
        w.end_box();
        proof {
            assert(w.bytes() =~= old(w).bytes() + self.spec_bytes());
            assert(w.counters() =~= spec_consume(old(w).counters(), self.spec_bytes().len()));
        }
    }
}

/// File Type record: major brand, version, compatible brands.
#[derive(Debug, Clone)]
pub struct FtypBox {
    pub major_brand: FourCC,
    pub minor_version: u32,
    pub compatible_brands: Vec<FourCC>,
}

impl FtypBox {
    /// Byte images of the compatible-brand tags.
    pub open spec fn spec_brand_bytes(&self) -> Seq<Seq<u8>> {
        self.compatible_brands@.map_values(|f: FourCC| f.0@)
    }

    /// Body of the record: major brand, version, compatible brands.
    pub open spec fn spec_body(&self) -> Seq<u8> {
        self.major_brand.0@ + spec_be32(self.minor_version) + concat_bytes(self.spec_brand_bytes())
    }
}

impl MpegBox for FtypBox {
    open spec fn wf(&self) -> bool {
        &&& self.compatible_brands@.len() <= 2
        &&& 8 + self.spec_body().len() <= u32::MAX
    }

    open spec fn writable(&self) -> bool {
        true
    }

    open spec fn spec_bytes(&self) -> Seq<u8> {
        spec_boxed(spec_tag_ftyp(), self.spec_body())
    }

    fn len(&self) -> (r: usize) {
        let ghost m = self.spec_brand_bytes();
        let mut total: usize = 8 + 4 + 4;
        let mut i: usize = 0;
        while i < self.compatible_brands.len()
            invariant
                0 <= i <= self.compatible_brands@.len(),
                self.wf(),
                m == self.spec_brand_bytes(),
                total == 16 + concat_bytes(m.take(i as int)).len(),
            decreases self.compatible_brands@.len() - i,
        {
            proof {
                lemma_concat_bytes_split(m, i as int);
                assert(concat_bytes(m.skip(i as int))
                    == m[i as int] + concat_bytes(m.skip(i as int).skip(1)));
                lemma_concat_bytes_push(m.take(i as int), m[i as int]);
                assert(m.take(i as int).push(m[i as int]) =~= m.take(i as int + 1));
            }
            total = total + 4;
            i = i + 1;
        }
        proof {
            assert(m.take(self.compatible_brands@.len() as int) =~= m);
        }
        total
    }

    fn write(&self, w: &mut Writer) {
        let ghost m = self.spec_brand_bytes();
        proof {
            assert(self.spec_bytes().len() == 8 + self.spec_body().len());
        }
        let total = self.len();
        w.new_box(total);
        w.basic_box(four(0x66, 0x74, 0x79, 0x70));
        w.push(self.major_brand.0.as_slice());
        w.u32(self.minor_version);
        let ghost mid_bytes = w.bytes();
        let ghost mid_cs = w.counters();
        let mut i: usize = 0;
        while i < self.compatible_brands.len()
            invariant
                0 <= i <= self.compatible_brands@.len(),
                self.wf(),
                m == self.spec_brand_bytes(),
                mid_cs.len() >= 1,
                mid_cs.last() == concat_bytes(m).len(),
                w.bytes() == mid_bytes + concat_bytes(m.take(i as int)),
                w.counters() == spec_consume(mid_cs, concat_bytes(m.take(i as int)).len()),
            decreases self.compatible_brands@.len() - i,
        {
            proof {
                lemma_concat_bytes_split(m, i as int);
                assert(concat_bytes(m.skip(i as int))
                    == m[i as int] + concat_bytes(m.skip(i as int).skip(1)));
            }
            w.push(self.compatible_brands[i].0.as_slice());
            proof {
                lemma_concat_bytes_push(m.take(i as int), m[i as int]);
                assert(m.take(i as int).push(m[i as int]) =~= m.take(i as int + 1));
                crate::writer::lemma_consume_add(
                    mid_cs,
                    concat_bytes(m.take(i as int)).len(),
                    m[i as int].len(),
                );
            }
            i = i + 1;
        }
        proof {
            assert(m.take(self.compatible_brands@.len() as int) =~= m);
        }
        w.end_box();
        proof {
            assert(w.bytes() =~= old(w).bytes() + self.spec_bytes());
            assert(w.counters() =~= spec_consume(old(w).counters(), self.spec_bytes().len()));
        }
    }
}

/// Item Info record: the table of item declarations.
#[derive(Debug, Clone)]
pub struct IinfBox {
    pub items: Vec<InfeBox>,
}

impl IinfBox {
    /// Byte images of the item entries.
    pub open spec fn spec_item_bytes(&self) -> Seq<Seq<u8>> {
        self.items@.map_values(|b: InfeBox| b.spec_bytes())
    }

    /// Body of the record: entry count, then the entries.
    pub open spec fn spec_body(&self) -> Seq<u8> {
        spec_be16(self.items@.len() as u16) + concat_bytes(self.spec_item_bytes())
    }
}

impl MpegBox for IinfBox {
    open spec fn wf(&self) -> bool {
        &&& self.items@.len() <= 2
        &&& forall|i: int| 0 <= i < self.items@.len() ==> (#[trigger] self.items@[i]).wf()
        &&& 12 + self.spec_body().len() <= u32::MAX
    }

    open spec fn writable(&self) -> bool {
        true
    }

    open spec fn spec_bytes(&self) -> Seq<u8> {
        spec_full_boxed(spec_tag_iinf(), 0, self.spec_body())
    }

    fn len(&self) -> (r: usize) {
        let ghost m = self.spec_item_bytes();
        let mut total: usize = 12 + 2;
        let mut i: usize = 0;
        while i < self.items.len()
            invariant
                0 <= i <= self.items@.len(),
                self.wf(),
                m == self.spec_item_bytes(),
                total == 14 + concat_bytes(m.take(i as int)).len(),
            decreases self.items@.len() - i,
        {
            proof {
                lemma_concat_bytes_split(m, i as int);
                assert(concat_bytes(m.skip(i as int))
                    == m[i as int] + concat_bytes(m.skip(i as int).skip(1)));
                lemma_concat_bytes_push(m.take(i as int), m[i as int]);
                assert(m.take(i as int).push(m[i as int]) =~= m.take(i as int + 1));
            }
            total = total + self.items[i].len();
            i = i + 1;
        }
        proof {
            assert(m.take(self.items@.len() as int) =~= m);
        }
        total
    }

    fn write(&self, w: &mut Writer) {
        let ghost m = self.spec_item_bytes();
        proof {
            assert(self.spec_bytes().len() == 12 + self.spec_body().len());
        }
        let total = self.len();
        w.new_box(total);
        w.full_box(four(0x69, 0x69, 0x6e, 0x66), 0);
        w.u16(self.items.len() as u16);
        let ghost mid_bytes = w.bytes();
        let ghost mid_cs = w.counters();
        let mut i: usize = 0;
        while i < self.items.len()
            invariant
                0 <= i <= self.items@.len(),
                self.wf(),
                m == self.spec_item_bytes(),
                mid_cs.len() >= 1,
                mid_cs.last() == concat_bytes(m).len(),
                w.bytes() == mid_bytes + concat_bytes(m.take(i as int)),
                w.counters() == spec_consume(mid_cs, concat_bytes(m.take(i as int)).len()),
            decreases self.items@.len() - i,
        {
            proof {
                lemma_concat_bytes_split(m, i as int);
                assert(concat_bytes(m.skip(i as int))
                    == m[i as int] + concat_bytes(m.skip(i as int).skip(1)));
            }
            self.items[i].write(w);
            proof {
                lemma_concat_bytes_push(m.take(i as int), m[i as int]);
                assert(m.take(i as int).push(m[i as int]) =~= m.take(i as int + 1));
                crate::writer::lemma_consume_add(
                    mid_cs,
                    concat_bytes(m.take(i as int)).len(),
                    m[i as int].len(),
                );
            }
            i = i + 1;
        }
        proof {
            assert(m.take(self.items@.len() as int) =~= m);
        }
        w.end_box();
        proof {
            assert(w.bytes() =~= old(w).bytes() + self.spec_bytes());
            assert(w.counters() =~= spec_consume(old(w).counters(), self.spec_bytes().len()));
        }
    }
}

/// Association of one item with the 1-based indices of its properties. An
/// index with the top bit set marks the property as essential.
#[derive(Debug, Clone)]
pub struct IpmaEntry {
    pub item_id: u16,
    pub prop_ids: Vec<u8>,
}

impl IpmaEntry {
    /// Structural conditions under which the entry can be sized.
    pub open spec fn wf(&self) -> bool {
        self.prop_ids@.len() <= 5
    }

    /// The exact bytes the entry serializes to.
    pub open spec fn spec_bytes(&self) -> Seq<u8> {
        spec_be16(self.item_id) + seq![self.prop_ids@.len() as u8] + self.prop_ids@
    }
}

/// Item Property Association record: one entry per item.
#[derive(Debug, Clone)]
pub struct IpmaBox {
    pub entries: Vec<IpmaEntry>,
}

impl IpmaBox {
    /// Byte images of the association entries.
    pub open spec fn spec_entry_bytes(&self) -> Seq<Seq<u8>> {
        self.entries@.map_values(|e: IpmaEntry| e.spec_bytes())
    }

    /// Body of the record: entry count, then the entries.
    pub open spec fn spec_body(&self) -> Seq<u8> {
        spec_be32(self.entries@.len() as u32) + concat_bytes(self.spec_entry_bytes())
    }
}

impl MpegBox for IpmaBox {
    open spec fn wf(&self) -> bool {
        &&& self.entries@.len() <= 2
        &&& forall|i: int| 0 <= i < self.entries@.len() ==> (#[trigger] self.entries@[i]).wf()
        &&& 12 + self.spec_body().len() <= u32::MAX
    }

    open spec fn writable(&self) -> bool {
        true
    }

    open spec fn spec_bytes(&self) -> Seq<u8> {
        spec_full_boxed(spec_tag_ipma(), 0, self.spec_body())
    }

    fn len(&self) -> (r: usize) {
        let ghost m = self.spec_entry_bytes();
        let mut total: usize = 12 + 4;
        let mut i: usize = 0;
        while i < self.entries.len()
            invariant
                0 <= i <= self.entries@.len(),
                self.wf(),
                m == self.spec_entry_bytes(),
                total == 16 + concat_bytes(m.take(i as int)).len(),
            decreases self.entries@.len() - i,
        {
            proof {
                lemma_concat_bytes_split(m, i as int);
                assert(concat_bytes(m.skip(i as int))
                    == m[i as int] + concat_bytes(m.skip(i as int).skip(1)));
                lemma_concat_bytes_push(m.take(i as int), m[i as int]);
                assert(m.take(i as int).push(m[i as int]) =~= m.take(i as int + 1));
            }
            total = total + 2 + 1 + self.entries[i].prop_ids.len();
            i = i + 1;
        }
        proof {
            assert(m.take(self.entries@.len() as int) =~= m);
        }
        total
    }

    fn write(&self, w: &mut Writer) {
        let ghost m = self.spec_entry_bytes();
        proof {
            assert(self.spec_bytes().len() == 12 + self.spec_body().len());
        }
        let total = self.len();
        w.new_box(total);
        w.full_box(four(0x69, 0x70, 0x6d, 0x61), 0);
        w.u32(self.entries.len() as u32);
        let ghost mid_bytes = w.bytes();
        let ghost mid_cs = w.counters();
        let mut i: usize = 0;
        while i < self.entries.len()
            invariant
                0 <= i <= self.entries@.len(),
                self.wf(),
                m == self.spec_entry_bytes(),
                mid_cs.len() >= 1,
                mid_cs.last() == concat_bytes(m).len(),
                w.bytes() == mid_bytes + concat_bytes(m.take(i as int)),
                w.counters() == spec_consume(mid_cs, concat_bytes(m.take(i as int)).len()),
            decreases self.entries@.len() - i,
        {
            proof {
                lemma_concat_bytes_split(m, i as int);
                assert(concat_bytes(m.skip(i as int))
                    == m[i as int] + concat_bytes(m.skip(i as int).skip(1)));
            }
            w.u16(self.entries[i].item_id);
            w.u8(self.entries[i].prop_ids.len() as u8);
            w.push(self.entries[i].prop_ids.as_slice());
            proof {
                lemma_concat_bytes_push(m.take(i as int), m[i as int]);
                assert(m.take(i as int).push(m[i as int]) =~= m.take(i as int + 1));
                crate::writer::lemma_consume_add(
                    mid_cs,
                    concat_bytes(m.take(i as int)).len(),
                    2,
                );
                crate::writer::lemma_consume_add(
                    mid_cs,
                    concat_bytes(m.take(i as int)).len() + 2,
                    1,
                );
                crate::writer::lemma_consume_add(
                    mid_cs,
                    concat_bytes(m.take(i as int)).len() + 3,
                    self.entries@[i as int].prop_ids@.len(),
                );
                assert(w.bytes() =~= mid_bytes + concat_bytes(m.take(i as int + 1)));
            }
            i = i + 1;
        }
        proof {
            assert(m.take(self.entries@.len() as int) =~= m);
        }
        w.end_box();
        proof {
            assert(w.bytes() =~= old(w).bytes() + self.spec_bytes());
            assert(w.counters() =~= spec_consume(old(w).counters(), self.spec_bytes().len()));
        }
    }
}

/// A concatenation of byte strings of one common length `k` has length
/// `k * n`.
pub proof fn lemma_concat_bytes_fixed_len(s: Seq<Seq<u8>>, k: nat)
    requires
        forall|i: int| 0 <= i < s.len() ==> (#[trigger] s[i]).len() == k,
    ensures
        concat_bytes(s).len() == k * s.len(),
    decreases s.len(),
{
    if s.len() == 0 {
    } else {
        lemma_concat_bytes_fixed_len(s.skip(1), k);
        assert(concat_bytes(s).len() == k + k * (s.len() - 1)) by {
            assert(s[0].len() == k);
        }
        assert(k + k * (s.len() - 1) == k * s.len()) by (nonlinear_arith);
    }
}

/// Byte offset of an item's data, either still relative to the start of the
/// raw-data region or already absolute from the start of the file. A
/// location entry must never be serialized while still relative.
#[derive(Debug, Copy, Clone, PartialEq, Eq, Structural)]
pub enum IlocOffset {
    Relative(usize),
    Absolute(u32),
}

/// One extent of an item's data: where it lives and how long it is.
#[derive(Debug, Copy, Clone)]
pub struct IlocExtent {
    pub offset: IlocOffset,
    pub len: usize,
}

impl IlocExtent {
    /// Structural conditions under which the extent can be sized.
    pub open spec fn wf(&self) -> bool {
        self.len <= u32::MAX
    }

    /// The extent may only be serialized once its offset is absolute.
    pub open spec fn writable(&self) -> bool {
        self.offset is Absolute
    }

    /// The absolute offset stored in the file.
    pub open spec fn spec_offset_value(&self) -> u32 {
        match self.offset {
            IlocOffset::Absolute(v) => v,
            IlocOffset::Relative(_) => 0,
        }
    }

    /// The exact bytes the extent serializes to.
    pub open spec fn spec_bytes(&self) -> Seq<u8> {
        spec_be32(self.spec_offset_value()) + spec_be32(self.len as u32)
    }
}

/// Location of one item's data: its id and its extents.
#[derive(Debug, Clone)]
pub struct IlocItem {
    pub id: u16,
    pub extents: Vec<IlocExtent>,
}

impl IlocItem {
    /// Byte images of the extents.
    pub open spec fn spec_extent_bytes(&self) -> Seq<Seq<u8>> {
        self.extents@.map_values(|e: IlocExtent| e.spec_bytes())
    }

    /// Structural conditions under which the entry can be sized.
    pub open spec fn wf(&self) -> bool {
        &&& self.extents@.len() <= 1
        &&& forall|i: int| 0 <= i < self.extents@.len() ==> (#[trigger] self.extents@[i]).wf()
    }

    /// The entry may only be serialized once every offset is absolute.
    pub open spec fn writable(&self) -> bool {
        forall|i: int| 0 <= i < self.extents@.len() ==> (#[trigger] self.extents@[i]).writable()
    }

    /// The exact bytes the entry serializes to.
    pub open spec fn spec_bytes(&self) -> Seq<u8> {
        spec_be16(self.id) + spec_be16(0) + spec_be16(self.extents@.len() as u16)
            + concat_bytes(self.spec_extent_bytes())
    }

    /// Number of bytes the entry serializes to.
    pub fn len(&self) -> (r: usize)
        requires
            self.wf(),
        ensures
            r == self.spec_bytes().len(),
    {
        proof {
            lemma_concat_bytes_fixed_len(self.spec_extent_bytes(), 8);
        }
        2 + 2 + 2 + 8 * self.extents.len()
    }

    /// Emits the entry's fields into the enclosing record.
    pub fn write_fields(&self, w: &mut Writer)
        requires
            self.wf(),
            self.writable(),
            spec_can_consume(old(w).counters(), self.spec_bytes().len()),
        ensures
            final(w).bytes() == old(w).bytes() + self.spec_bytes(),
            final(w).counters() == spec_consume(old(w).counters(), self.spec_bytes().len()),
    {
        let ghost m = self.spec_extent_bytes();
        proof {
            lemma_concat_bytes_fixed_len(m, 8);
        }
        w.u16(self.id);
        w.u16(0);
        w.u16(self.extents.len() as u16);
        let ghost mid_bytes = w.bytes();
        let ghost mid_cs = w.counters();
        let mut i: usize = 0;
        while i < self.extents.len()
            invariant
                0 <= i <= self.extents@.len(),
                self.wf(),
                self.writable(),
                m == self.spec_extent_bytes(),
                spec_can_consume(mid_cs, concat_bytes(m).len()),
                w.bytes() == mid_bytes + concat_bytes(m.take(i as int)),
                w.counters() == spec_consume(mid_cs, concat_bytes(m.take(i as int)).len()),
            decreases self.extents@.len() - i,
        {
            proof {
                lemma_concat_bytes_split(m, i as int);
                assert(concat_bytes(m.skip(i as int))
                    == m[i as int] + concat_bytes(m.skip(i as int).skip(1)));
            }
            let ex = self.extents[i];
            match ex.offset {
                IlocOffset::Absolute(v) => {
                    w.u32(v);
                },
                IlocOffset::Relative(_) => {
                    proof {
                        assert(false);
                    }
                },
            }
            w.u32(ex.len as u32);
            proof {
                lemma_concat_bytes_push(m.take(i as int), m[i as int]);
                assert(m.take(i as int).push(m[i as int]) =~= m.take(i as int + 1));
                crate::writer::lemma_consume_add(
                    mid_cs,
                    concat_bytes(m.take(i as int)).len(),
                    4,
                );
                crate::writer::lemma_consume_add(
                    mid_cs,
                    concat_bytes(m.take(i as int)).len() + 4,
                    4,
                );
                assert(w.bytes() =~= mid_bytes + concat_bytes(m.take(i as int + 1)));
            }
            i = i + 1;
        }
        proof {
            assert(m.take(self.extents@.len() as int) =~= m);
            assert(w.bytes() =~= old(w).bytes() + self.spec_bytes());
            crate::writer::lemma_consume_add(old(w).counters(), 6, concat_bytes(m).len());
        }
    }
}

/// Item Location record: where each item's bytes live in the file. This
/// table always uses one extent per item and 4-byte offset and length
/// fields.
#[derive(Debug, Clone)]
pub struct IlocBox {
    pub items: Vec<IlocItem>,
}

impl IlocBox {
    /// Byte images of the location entries.
    pub open spec fn spec_item_bytes(&self) -> Seq<Seq<u8>> {
        self.items@.map_values(|it: IlocItem| it.spec_bytes())
    }

    /// Body of the record: field widths, item count, then the entries.
    pub open spec fn spec_body(&self) -> Seq<u8> {
        seq![0x44u8, 0u8] + spec_be16(self.items@.len() as u16)
            + concat_bytes(self.spec_item_bytes())
    }
}

impl MpegBox for IlocBox {
    open spec fn wf(&self) -> bool {
        &&& self.items@.len() <= 2
        &&& forall|i: int| 0 <= i < self.items@.len() ==> (#[trigger] self.items@[i]).wf()
        &&& 12 + self.spec_body().len() <= u32::MAX
    }

    open spec fn writable(&self) -> bool {
        forall|i: int| 0 <= i < self.items@.len() ==> (#[trigger] self.items@[i]).writable()
    }

    open spec fn spec_bytes(&self) -> Seq<u8> {
        spec_full_boxed(spec_tag_iloc(), 0, self.spec_body())
    }

    fn len(&self) -> (r: usize) {
        let ghost m = self.spec_item_bytes();
        let mut total: usize = 12 + 1 + 1 + 2;
        let mut i: usize = 0;
        while i < self.items.len()
            invariant
                0 <= i <= self.items@.len(),
                self.wf(),
                m == self.spec_item_bytes(),
                total == 16 + concat_bytes(m.take(i as int)).len(),
            decreases self.items@.len() - i,
        {
            proof {
                lemma_concat_bytes_split(m, i as int);
                assert(concat_bytes(m.skip(i as int))
                    == m[i as int] + concat_bytes(m.skip(i as int).skip(1)));
                lemma_concat_bytes_push(m.take(i as int), m[i as int]);
                assert(m.take(i as int).push(m[i as int]) =~= m.take(i as int + 1));
            }
            total = total + self.items[i].len();
            i = i + 1;
        }
        proof {
            assert(m.take(self.items@.len() as int) =~= m);
        }
        total
    }

    fn write(&self, w: &mut Writer) {
        let ghost m = self.spec_item_bytes();
        proof {
            assert(self.spec_bytes().len() == 12 + self.spec_body().len());
        }
        let total = self.len();
        w.new_box(total);
        w.full_box(four(0x69, 0x6c, 0x6f, 0x63), 0);
        let widths = [0x44u8, 0u8];
        proof {
            assert(widths@ =~= seq![0x44u8, 0u8]);
        }
        w.push(widths.as_slice());
        w.u16(self.items.len() as u16);
        let ghost mid_bytes = w.bytes();
        let ghost mid_cs = w.counters();
        let mut i: usize = 0;
        while i < self.items.len()
            invariant
                0 <= i <= self.items@.len(),
                self.wf(),
                self.writable(),
                m == self.spec_item_bytes(),
                mid_cs.len() >= 1,
                mid_cs.last() == concat_bytes(m).len(),
                w.bytes() == mid_bytes + concat_bytes(m.take(i as int)),
                w.counters() == spec_consume(mid_cs, concat_bytes(m.take(i as int)).len()),
            decreases self.items@.len() - i,
        {
            proof {
                lemma_concat_bytes_split(m, i as int);
                assert(concat_bytes(m.skip(i as int))
                    == m[i as int] + concat_bytes(m.skip(i as int).skip(1)));
            }
            self.items[i].write_fields(w);
            proof {
                lemma_concat_bytes_push(m.take(i as int), m[i as int]);
                assert(m.take(i as int).push(m[i as int]) =~= m.take(i as int + 1));
                crate::writer::lemma_consume_add(
                    mid_cs,
                    concat_bytes(m.take(i as int)).len(),
                    m[i as int].len(),
                );
            }
            i = i + 1;
        }
        proof {
            assert(m.take(self.items@.len() as int) =~= m);
        }
        w.end_box();
        proof {
            assert(w.bytes() =~= old(w).bytes() + self.spec_bytes());
            assert(w.counters() =~= spec_consume(old(w).counters(), self.spec_bytes().len()));
        }
    }
}

/// Item Reference record carrying every edge of the file in one table.
#[derive(Debug, Clone)]
pub struct IrefBox2 {
    pub entries: Vec<IrefEntryBox>,
}

/// Byte image of an Item Reference record holding the given edges.
pub open spec fn spec_iref2_bytes(entries: Seq<IrefEntryBox>) -> Seq<u8> {
    spec_full_boxed(
        spec_tag_iref(),
        0,
        concat_bytes(entries.map_values(|e: IrefEntryBox| e.spec_bytes())),
    )
}

impl MpegBox for IrefBox2 {
    open spec fn wf(&self) -> bool {
        self.entries@.len() <= 2
    }

    open spec fn writable(&self) -> bool {
        true
    }

    open spec fn spec_bytes(&self) -> Seq<u8> {
        spec_iref2_bytes(self.entries@)
    }

    fn len(&self) -> (r: usize) {
        proof {
            lemma_concat_bytes_fixed_len(
                self.entries@.map_values(|e: IrefEntryBox| e.spec_bytes()),
                14,
            );
        }
        12 + 14 * self.entries.len()
    }

    fn write(&self, w: &mut Writer) {
        let ghost m = self.entries@.map_values(|e: IrefEntryBox| e.spec_bytes());
        proof {
            lemma_concat_bytes_fixed_len(m, 14);
            assert(self.spec_bytes().len() == 12 + concat_bytes(m).len());
        }
        let total = self.len();
        w.new_box(total);
        w.full_box(four(0x69, 0x72, 0x65, 0x66), 0);
        let ghost mid_bytes = w.bytes();
        let ghost mid_cs = w.counters();
        let mut i: usize = 0;
        while i < self.entries.len()
            invariant
                0 <= i <= self.entries@.len(),
                self.wf(),
                m == self.entries@.map_values(|e: IrefEntryBox| e.spec_bytes()),
                mid_cs.len() >= 1,
                mid_cs.last() == concat_bytes(m).len(),
                w.bytes() == mid_bytes + concat_bytes(m.take(i as int)),
                w.counters() == spec_consume(mid_cs, concat_bytes(m.take(i as int)).len()),
            decreases self.entries@.len() - i,
        {
            proof {
                lemma_concat_bytes_split(m, i as int);
                assert(concat_bytes(m.skip(i as int))
                    == m[i as int] + concat_bytes(m.skip(i as int).skip(1)));
            }
            let e = self.entries[i];
            e.write(w);
            proof {
                lemma_concat_bytes_push(m.take(i as int), m[i as int]);
                assert(m.take(i as int).push(m[i as int]) =~= m.take(i as int + 1));
                crate::writer::lemma_consume_add(
                    mid_cs,
                    concat_bytes(m.take(i as int)).len(),
                    m[i as int].len(),
                );
            }
            i = i + 1;
        }
        proof {
            assert(m.take(self.entries@.len() as int) =~= m);
        }
        w.end_box();
        proof {
            assert(w.bytes() =~= old(w).bytes() + self.spec_bytes());
            assert(w.counters() =~= spec_consume(old(w).counters(), self.spec_bytes().len()));
        }
    }
}

/// Item Properties record: the property container plus the associations
/// that bind properties to items.
#[derive(Debug, Clone)]
pub struct IprpBox {
    pub ipco: IpcoBox,
    pub ipma: IpmaBox,
}

impl IprpBox {
    /// Body of the record: the container, then the associations.
    pub open spec fn spec_body(&self) -> Seq<u8> {
        self.ipco.spec_bytes() + self.ipma.spec_bytes()
    }
}

impl MpegBox for IprpBox {
    open spec fn wf(&self) -> bool {
        &&& self.ipco.wf()
        &&& self.ipma.wf()
        &&& 8 + self.spec_body().len() <= u32::MAX
    }

    open spec fn writable(&self) -> bool {
        true
    }

    open spec fn spec_bytes(&self) -> Seq<u8> {
        spec_boxed(spec_tag_iprp(), self.spec_body())
    }

    fn len(&self) -> (r: usize) {
        8 + self.ipco.len() + self.ipma.len()
    }

    fn write(&self, w: &mut Writer) {
        proof {
            assert(self.spec_bytes().len() == 8 + self.spec_body().len());
        }
        let total = self.len();
        w.new_box(total);
        w.basic_box(four(0x69, 0x70, 0x72, 0x70));
        self.ipco.write(w);
        self.ipma.write(w);
        w.end_box();
        proof {
            assert(w.bytes() =~= old(w).bytes() + self.spec_bytes());
            assert(w.counters() =~= spec_consume(old(w).counters(), self.spec_bytes().len()));
        }
    }
}

/// Media Data record: the concatenated raw payload chunks.
#[derive(Debug, Clone)]
pub struct MdatBox {
    pub data_chunks: Vec<Vec<u8>>,
}

impl MdatBox {
    /// Byte images of the payload chunks.
    pub open spec fn spec_chunk_bytes(&self) -> Seq<Seq<u8>> {
        self.data_chunks@.map_values(|c: Vec<u8>| c@)
    }

    /// Body of the record: the chunks back to back.
    pub open spec fn spec_body(&self) -> Seq<u8> {
        concat_bytes(self.spec_chunk_bytes())
    }
}

impl MpegBox for MdatBox {
    open spec fn wf(&self) -> bool {
        &&& self.data_chunks@.len() <= 4
        &&& 8 + self.spec_body().len() <= u32::MAX
    }

    open spec fn writable(&self) -> bool {
        true
    }

    open spec fn spec_bytes(&self) -> Seq<u8> {
        spec_boxed(spec_tag_mdat(), self.spec_body())
    }

    fn len(&self) -> (r: usize) {
        let ghost m = self.spec_chunk_bytes();
        let mut total: usize = 8;
        let mut i: usize = 0;
        while i < self.data_chunks.len()
            invariant
                0 <= i <= self.data_chunks@.len(),
                self.wf(),
                m == self.spec_chunk_bytes(),
                total == 8 + concat_bytes(m.take(i as int)).len(),
            decreases self.data_chunks@.len() - i,
        {
            proof {
                lemma_concat_bytes_split(m, i as int);
                assert(concat_bytes(m.skip(i as int))
                    == m[i as int] + concat_bytes(m.skip(i as int).skip(1)));
                lemma_concat_bytes_push(m.take(i as int), m[i as int]);
                assert(m.take(i as int).push(m[i as int]) =~= m.take(i as int + 1));
            }
            total = total + self.data_chunks[i].len();
            i = i + 1;
        }
        proof {
            assert(m.take(self.data_chunks@.len() as int) =~= m);
        }
        total
    }

    fn write(&self, w: &mut Writer) {
        let ghost m = self.spec_chunk_bytes();
        proof {
            assert(self.spec_bytes().len() == 8 + self.spec_body().len());
        }
        let total = self.len();
        w.new_box(total);
        w.basic_box(four(0x6d, 0x64, 0x61, 0x74));
        let ghost mid_bytes = w.bytes();
        let ghost mid_cs = w.counters();
        let mut i: usize = 0;
        while i < self.data_chunks.len()
            invariant
                0 <= i <= self.data_chunks@.len(),
                self.wf(),
                m == self.spec_chunk_bytes(),
                mid_cs.len() >= 1,
                mid_cs.last() == concat_bytes(m).len(),
                w.bytes() == mid_bytes + concat_bytes(m.take(i as int)),
                w.counters() == spec_consume(mid_cs, concat_bytes(m.take(i as int)).len()),
            decreases self.data_chunks@.len() - i,
        {
            proof {
                lemma_concat_bytes_split(m, i as int);
                assert(concat_bytes(m.skip(i as int))
                    == m[i as int] + concat_bytes(m.skip(i as int).skip(1)));
            }
            w.push(self.data_chunks[i].as_slice());
            proof {
                lemma_concat_bytes_push(m.take(i as int), m[i as int]);
                assert(m.take(i as int).push(m[i as int]) =~= m.take(i as int + 1));
                crate::writer::lemma_consume_add(
                    mid_cs,
                    concat_bytes(m.take(i as int)).len(),
                    m[i as int].len(),
                );
            }
            i = i + 1;
        }
        proof {
            assert(m.take(self.data_chunks@.len() as int) =~= m);
        }
        w.end_box();
        proof {
            assert(w.bytes() =~= old(w).bytes() + self.spec_bytes());
            assert(w.counters() =~= spec_consume(old(w).counters(), self.spec_bytes().len()));
        }
    }
}

/// Metadata record: every table that describes the items, in the fixed
/// order the format asks for.
#[derive(Debug, Clone)]
pub struct MetaBox {
    pub hdlr: HdlrBox,
    pub iloc: IlocBox,
    pub iinf: IinfBox,
    pub pitm: PitmBox,
    pub iprp: IprpBox,
    pub iref: Vec<IrefBox>,
}

impl MetaBox {
    /// The reference edges, merged into one table.
    pub open spec fn spec_iref_entries(&self) -> Seq<IrefEntryBox> {
        self.iref@.map_values(|b: IrefBox| b.entry)
    }

    /// Byte image of the reference table: present only when there is at
    /// least one edge.
    pub open spec fn spec_iref_bytes(&self) -> Seq<u8> {
        if self.iref@.len() > 0 {
            spec_iref2_bytes(self.spec_iref_entries())
        } else {
            Seq::empty()
        }
    }

    /// Body of the record: the child tables back to back.
    pub open spec fn spec_body(&self) -> Seq<u8> {
        self.hdlr.spec_bytes() + self.pitm.spec_bytes() + self.iloc.spec_bytes()
            + self.iinf.spec_bytes() + self.spec_iref_bytes() + self.iprp.spec_bytes()
    }

    /// Collects the reference edges into one merged table.
    fn collect_irefs(&self) -> (r: IrefBox2)
        ensures
            r.entries@ == self.spec_iref_entries(),
    {
        let mut entries: Vec<IrefEntryBox> = Vec::new();
        let mut i: usize = 0;
        while i < self.iref.len()
            invariant
                0 <= i <= self.iref@.len(),
                entries@ == self.spec_iref_entries().take(i as int),
            decreases self.iref@.len() - i,
        {
            entries.push(self.iref[i].entry);
            proof {
                assert(self.spec_iref_entries().take(i as int).push(self.iref@[i as int].entry)
                    =~= self.spec_iref_entries().take(i as int + 1));
            }
            i = i + 1;
        }
        proof {
            assert(self.spec_iref_entries().take(self.iref@.len() as int)
                =~= self.spec_iref_entries());
        }
        IrefBox2 { entries }
    }
}

impl MpegBox for MetaBox {
    open spec fn wf(&self) -> bool {
        &&& self.hdlr.wf()
        &&& self.pitm.wf()
        &&& self.iloc.wf()
        &&& self.iinf.wf()
        &&& self.iprp.wf()
        &&& self.iref@.len() <= 2
        &&& 12 + self.spec_body().len() <= u32::MAX
    }

    open spec fn writable(&self) -> bool {
        self.iloc.writable()
    }

    open spec fn spec_bytes(&self) -> Seq<u8> {
        spec_full_boxed(spec_tag_meta(), 0, self.spec_body())
    }

    #[verifier::rlimit(60)]
    fn len(&self) -> (r: usize) {
        proof {
            lemma_concat_bytes_fixed_len(
                self.spec_iref_entries().map_values(|e: IrefEntryBox| e.spec_bytes()),
                14,
            );
            assert(self.spec_body().len() == self.hdlr.spec_bytes().len()
                + self.pitm.spec_bytes().len() + self.iloc.spec_bytes().len()
                + self.iinf.spec_bytes().len() + self.spec_iref_bytes().len()
                + self.iprp.spec_bytes().len());
        }
        let iref_len: usize = if self.iref.len() > 0 {
            12 + 14 * self.iref.len()
        } else {
            0
        };
        12 + self.hdlr.len() + self.pitm.len() + self.iloc.len() + self.iinf.len() + iref_len
            + self.iprp.len()
    }

    #[verifier::rlimit(100)]
    #[verifier::spinoff_prover]
    fn write(&self, w: &mut Writer) {
        proof {
            assert(self.spec_bytes().len() == 12 + self.spec_body().len());
            assert(self.spec_body().len() == self.hdlr.spec_bytes().len()
                + self.pitm.spec_bytes().len() + self.iloc.spec_bytes().len()
                + self.iinf.spec_bytes().len() + self.spec_iref_bytes().len()
                + self.iprp.spec_bytes().len());
        }
        let total = self.len();
        w.new_box(total);
        w.full_box(four(0x6d, 0x65, 0x74, 0x61), 0);
        self.hdlr.write(w);
        self.pitm.write(w);
        self.iloc.write(w);
        self.iinf.write(w);
        if self.iref.len() > 0 {
            let iref2 = self.collect_irefs();
            proof {
                lemma_concat_bytes_fixed_len(
                    iref2.entries@.map_values(|e: IrefEntryBox| e.spec_bytes()),
                    14,
                );
            }
            iref2.write(w);
        }
        self.iprp.write(w);
        w.end_box();
        proof {
            assert(w.bytes() =~= old(w).bytes() + self.spec_bytes());
            assert(w.counters() =~= spec_consume(old(w).counters(), self.spec_bytes().len()));
        }
    }
}

/// Two element-wise equally long sequences of byte strings concatenate to
/// the same length.
pub proof fn lemma_concat_bytes_pointwise_len(s1: Seq<Seq<u8>>, s2: Seq<Seq<u8>>)
    requires
        s1.len() == s2.len(),
        forall|i: int| 0 <= i < s1.len() ==> (#[trigger] s1[i]).len() == s2[i].len(),
    ensures
        concat_bytes(s1).len() == concat_bytes(s2).len(),
    decreases s1.len(),
{
    if s1.len() == 0 {
    } else {
        lemma_concat_bytes_pointwise_len(s1.skip(1), s2.skip(1));
    }
}

/// The concatenation of one byte string.
pub proof fn lemma_concat_bytes_one(a: Seq<u8>)
    ensures
        concat_bytes(seq![a]) == a,
{
    assert(seq![a].skip(1) =~= Seq::<Seq<u8>>::empty());
    assert(concat_bytes(seq![a].skip(1)) =~= Seq::<u8>::empty());
    assert(concat_bytes(seq![a]) =~= a);
}

/// The concatenation of two byte strings.
pub proof fn lemma_concat_bytes_two(a: Seq<u8>, b: Seq<u8>)
    ensures
        concat_bytes(seq![a, b]) == a + b,
{
    lemma_concat_bytes_one(a);
    lemma_concat_bytes_push(seq![a], b);
    assert(seq![a].push(b) =~= seq![a, b]);
}

/// The concatenation of three byte strings.
pub proof fn lemma_concat_bytes_three(a: Seq<u8>, b: Seq<u8>, c: Seq<u8>)
    ensures
        concat_bytes(seq![a, b, c]) == a + b + c,
{
    lemma_concat_bytes_two(a, b);
    lemma_concat_bytes_push(seq![a, b], c);
    assert(seq![a, b].push(c) =~= seq![a, b, c]);
}

/// The concatenation of four byte strings.
pub proof fn lemma_concat_bytes_four(a: Seq<u8>, b: Seq<u8>, c: Seq<u8>, d: Seq<u8>)
    ensures
        concat_bytes(seq![a, b, c, d]) == a + b + c + d,
{
    lemma_concat_bytes_three(a, b, c);
    lemma_concat_bytes_push(seq![a, b, c], d);
    assert(seq![a, b, c].push(d) =~= seq![a, b, c, d]);
}

/// The concatenation of six byte strings.
pub proof fn lemma_concat_bytes_six(
    a: Seq<u8>,
    b: Seq<u8>,
    c: Seq<u8>,
    d: Seq<u8>,
    e: Seq<u8>,
    f: Seq<u8>,
)
    ensures
        concat_bytes(seq![a, b, c, d, e, f]) == a + b + c + d + e + f,
{
    lemma_concat_bytes_four(a, b, c, d);
    lemma_concat_bytes_push(seq![a, b, c, d], e);
    assert(seq![a, b, c, d].push(e) =~= seq![a, b, c, d, e]);
    lemma_concat_bytes_push(seq![a, b, c, d, e], f);
    assert(seq![a, b, c, d, e].push(f) =~= seq![a, b, c, d, e, f]);
}

/// The concatenation of seven byte strings.
pub proof fn lemma_concat_bytes_seven(
    a: Seq<u8>,
    b: Seq<u8>,
    c: Seq<u8>,
    d: Seq<u8>,
    e: Seq<u8>,
    f: Seq<u8>,
    g: Seq<u8>,
)
    ensures
        concat_bytes(seq![a, b, c, d, e, f, g]) == a + b + c + d + e + f + g,
{
    lemma_concat_bytes_six(a, b, c, d, e, f);
    lemma_concat_bytes_push(seq![a, b, c, d, e, f], g);
    assert(seq![a, b, c, d, e, f].push(g) =~= seq![a, b, c, d, e, f, g]);
}

/// An offset with the payload start added: a relative offset becomes
/// absolute, an absolute one is left untouched.
pub open spec fn spec_absolutize(o: IlocOffset, start: u32) -> IlocOffset {
    match o {
        IlocOffset::Relative(n) => IlocOffset::Absolute((n + start) as u32),
        IlocOffset::Absolute(v) => IlocOffset::Absolute(v),
    }
}

/// Relation between a file before and after the offset fixup: everything
/// is unchanged but the location offsets, which are absolutized against
/// the original file's payload start.
pub open spec fn spec_fixed_file(f1: AvifFile, f2: AvifFile) -> bool {
    &&& f2.ftyp == f1.ftyp
    &&& f2.mdat == f1.mdat
    &&& f2.meta.hdlr == f1.meta.hdlr
    &&& f2.meta.pitm == f1.meta.pitm
    &&& f2.meta.iinf == f1.meta.iinf
    &&& f2.meta.iprp == f1.meta.iprp
    &&& f2.meta.iref == f1.meta.iref
    &&& f2.meta.iloc.items@.len() == f1.meta.iloc.items@.len()
    &&& forall|i: int|
        0 <= i < f1.meta.iloc.items@.len() ==> (#[trigger] f2.meta.iloc.items@[i]).id
            == f1.meta.iloc.items@[i].id && f2.meta.iloc.items@[i].extents@.len()
            == f1.meta.iloc.items@[i].extents@.len()
    &&& forall|i: int, j: int|
        0 <= i < f1.meta.iloc.items@.len() && 0 <= j < f1.meta.iloc.items@[i].extents@.len()
            ==> (#[trigger] f2.meta.iloc.items@[i].extents@[j]) == (IlocExtent {
                offset: spec_absolutize(
                    f1.meta.iloc.items@[i].extents@[j].offset,
                    f1.spec_payload_start() as u32,
                ),
                len: f1.meta.iloc.items@[i].extents@[j].len,
            })
}

/// After the fixup the metadata record is still well formed, its length is
/// unchanged, and every location offset is absolute, so the file can be
/// serialized.
#[verifier::rlimit(100)]
#[verifier::spinoff_prover]
pub proof fn lemma_fixed_file_writable(f1: AvifFile, f2: AvifFile)
    requires
        f1.wf(),
        spec_fixed_file(f1, f2),
    ensures
        f2.meta.wf(),
        f2.meta.writable(),
        f2.meta.spec_bytes().len() == f1.meta.spec_bytes().len(),
{
    let old_m = f1.meta.iloc.spec_item_bytes();
    let new_m = f2.meta.iloc.spec_item_bytes();
    assert forall|i: int| 0 <= i < new_m.len() implies (#[trigger] new_m[i]).len()
        == old_m[i].len() by {
        lemma_concat_bytes_fixed_len(f2.meta.iloc.items@[i].spec_extent_bytes(), 8);
        lemma_concat_bytes_fixed_len(f1.meta.iloc.items@[i].spec_extent_bytes(), 8);
    }
    lemma_concat_bytes_pointwise_len(new_m, old_m);
    assert(f2.meta.iloc.spec_body().len() == f1.meta.iloc.spec_body().len());
    assert(f2.meta.iloc.spec_bytes().len() == f1.meta.iloc.spec_bytes().len());
    assert(f2.meta.spec_body().len() == f1.meta.spec_body().len());
    assert forall|i: int| 0 <= i < f2.meta.iloc.items@.len()
        implies (#[trigger] f2.meta.iloc.items@[i]).wf()
            && f2.meta.iloc.items@[i].writable() by {
        assert(f1.meta.iloc.items@[i].wf());
    }
    assert(f2.meta.iloc.wf());
    assert(f2.meta.wf());
}

/// A complete AVIF file: file-type record, metadata record, raw payload
/// record.
#[derive(Debug, Clone)]
pub struct AvifFile {
    pub ftyp: FtypBox,
    pub meta: MetaBox,
    pub mdat: MdatBox,
}

impl AvifFile {
    /// Structural conditions under which the file can be serialized.
    pub open spec fn wf(&self) -> bool {
        &&& self.ftyp.wf()
        &&& self.meta.wf()
        &&& self.mdat.wf()
        &&& self.ftyp.spec_bytes().len() + self.meta.spec_bytes().len() + 8 <= u32::MAX
    }

    /// Where the raw payload starts: after the header records and the
    /// raw-data record's own header.
    pub open spec fn spec_payload_start(&self) -> int {
        self.ftyp.spec_bytes().len() as int + self.meta.spec_bytes().len() as int + 8
    }

    /// Every relative offset still fits the 32-bit offset field once the
    /// payload start is added.
    pub open spec fn spec_offsets_fixable(&self) -> bool {
        forall|i: int, j: int|
            0 <= i < self.meta.iloc.items@.len() && 0 <= j
                < self.meta.iloc.items@[i].extents@.len()
                ==> match (#[trigger] self.meta.iloc.items@[i].extents@[j]).offset {
                    IlocOffset::Relative(n) => n + self.spec_payload_start() <= u32::MAX,
                    IlocOffset::Absolute(_) => true,
                }
    }

    /// Offset of the raw payload from the start of the file, for the
    /// location table.
    fn mdat_payload_start_offset(&self) -> (r: u32)
        requires
            self.wf(),
        ensures
            r == self.spec_payload_start(),
    {
        (self.ftyp.len() + self.meta.len() + 8) as u32
    }

    /// Converts every relative location offset into an absolute one by
    /// adding the total header length. Must run exactly once, after all
    /// header content is final and before any byte is written.
    fn fix_iloc_positions(&mut self)
        requires
            old(self).wf(),
            old(self).spec_offsets_fixable(),
        ensures
            spec_fixed_file(*old(self), *final(self)),
    {
        let start = self.mdat_payload_start_offset();
        let ghost old_items = self.meta.iloc.items@;
        let n = self.meta.iloc.items.len();
        let mut new_items: Vec<IlocItem> = Vec::new();
        let mut i: usize = 0;
        while i < n
            invariant
                0 <= i <= n,
                n == old_items.len(),
                self.meta.iloc.items@ == old_items,
                old(self).meta.iloc.items@ == old_items,
                start == old(self).spec_payload_start(),
                old(self).spec_offsets_fixable(),
                new_items@.len() == i,
                forall|p: int|
                    0 <= p < i ==> (#[trigger] new_items@[p]).id == old_items[p].id
                        && new_items@[p].extents@.len() == old_items[p].extents@.len(),
                forall|p: int, q: int|
                    0 <= p < i && 0 <= q < old_items[p].extents@.len()
                        ==> (#[trigger] new_items@[p].extents@[q])
                            == (IlocExtent {
                                offset: spec_absolutize(
                                    old_items[p].extents@[q].offset,
                                    start,
                                ),
                                len: old_items[p].extents@[q].len,
                            }),
            decreases n - i,
        {
            let item_id = self.meta.iloc.items[i].id;
            let m = self.meta.iloc.items[i].extents.len();
            let mut new_extents: Vec<IlocExtent> = Vec::new();
            let mut j: usize = 0;
            while j < m
                invariant
                    0 <= j <= m,
                    0 <= i < old_items.len(),
                    self.meta.iloc.items@ == old_items,
                    old(self).meta.iloc.items@ == old_items,
                    start == old(self).spec_payload_start(),
                    old(self).spec_offsets_fixable(),
                    m == old_items[i as int].extents@.len(),
                    new_extents@.len() == j,
                    forall|q: int|
                        0 <= q < j ==> (#[trigger] new_extents@[q])
                            == (IlocExtent {
                                offset: spec_absolutize(
                                    old_items[i as int].extents@[q].offset,
                                    start,
                                ),
                                len: old_items[i as int].extents@[q].len,
                            }),
                decreases m - j,
            {
                let ex = self.meta.iloc.items[i].extents[j];
                let abs_offset = match ex.offset {
                    IlocOffset::Relative(rel) => IlocOffset::Absolute(rel as u32 + start),
                    IlocOffset::Absolute(v) => IlocOffset::Absolute(v),
                };
                new_extents.push(IlocExtent { offset: abs_offset, len: ex.len });
                j = j + 1;
            }
            new_items.push(IlocItem { id: item_id, extents: new_extents });
            i = i + 1;
        }
        self.meta.iloc = IlocBox { items: new_items };
    }

    /// Fixes up the location offsets, then serializes the whole file.
    #[verifier::rlimit(100)]
    #[verifier::spinoff_prover]
    pub fn write(&mut self) -> (out: Vec<u8>)
        requires
            old(self).wf(),
            old(self).spec_offsets_fixable(),
        ensures
            out@ == final(self).ftyp.spec_bytes() + final(self).meta.spec_bytes()
                + final(self).mdat.spec_bytes(),
            spec_fixed_file(*old(self), *final(self)),
    {
        self.fix_iloc_positions();
        proof {
            lemma_fixed_file_writable(*old(self), *self);
        }
        let mut w = Writer::new();
        self.ftyp.write(&mut w);
        self.meta.write(&mut w);
        self.mdat.write(&mut w);
        let out = w.into_inner();
        proof {
            assert(out@ =~= self.ftyp.spec_bytes() + self.meta.spec_bytes()
                + self.mdat.spec_bytes());
        }
        out
    }
}

} // verus!
