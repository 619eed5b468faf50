//! AVIF container serializer.
//!
//! Wraps already-encoded AV1 payloads (a color plane and an optional alpha
//! plane) in a minimal ISOBMFF/HEIF container. Every byte of the output is
//! pinned down by the contracts: `spec_avif_bytes` states the whole file as
//! a function of the inputs, and serialization is proved to emit, for each
//! record, exactly the number of bytes the record declares in its header.

use vstd::prelude::*;

pub mod boxes;
pub mod constants;
pub mod writer;

use crate::boxes::AuxCBox;
use crate::boxes::Av1CBox;
use crate::boxes::AvifFile;
use crate::boxes::ColrBox;
use crate::boxes::FourCC;
use crate::boxes::FtypBox;
use crate::boxes::HdlrBox;
use crate::boxes::IinfBox;
use crate::boxes::IlocBox;
use crate::boxes::IlocExtent;
use crate::boxes::IlocItem;
use crate::boxes::IlocOffset;
use crate::boxes::InfeBox;
use crate::boxes::IpcoBox;
use crate::boxes::IpcoProp;
use crate::boxes::IpmaBox;
use crate::boxes::IpmaEntry;
use crate::boxes::IprpBox;
use crate::boxes::IrefBox;
use crate::boxes::IrefEntryBox;
use crate::boxes::IspeBox;
use crate::boxes::MdatBox;
use crate::boxes::MetaBox;
use crate::boxes::MpegBox;
use crate::boxes::PitmBox;
use crate::boxes::PixiBox;
use crate::boxes::alpha_urn;
use crate::boxes::concat_bytes;
use crate::boxes::four;
use crate::boxes::spec_absolutize;
use crate::boxes::spec_alpha_urn;
use crate::boxes::spec_boxed;
use crate::boxes::spec_colr_default;
use crate::boxes::spec_full_boxed;
use crate::boxes::spec_tag_auxc;
use crate::boxes::spec_tag_auxl;
use crate::boxes::spec_tag_av01;
use crate::boxes::spec_tag_av1c;
use crate::boxes::spec_tag_avif;
use crate::boxes::spec_tag_colr;
use crate::boxes::spec_tag_ftyp;
use crate::boxes::spec_tag_iinf;
use crate::boxes::spec_tag_iloc;
use crate::boxes::spec_tag_infe;
use crate::boxes::spec_tag_ipco;
use crate::boxes::spec_tag_ipma;
use crate::boxes::spec_tag_ispe;
use crate::boxes::spec_tag_pixi;
use crate::boxes::spec_tag_iprp;
use crate::boxes::spec_tag_iref;
use crate::boxes::spec_tag_mdat;
use crate::boxes::spec_tag_meta;
use crate::boxes::spec_tag_miaf;
use crate::boxes::spec_tag_mif1;
use crate::boxes::spec_tag_prem;
use crate::constants::ColorPrimaries;
use crate::constants::MatrixCoefficients;
use crate::constants::TransferCharacteristics;
use crate::writer::spec_be16;
use crate::writer::spec_be32;

verus! {

/// Caps each payload so that every offset and length, with the header in
/// front, still fits the 32-bit fields of the location table.
pub const MAX_PAYLOAD_LEN: usize = 0x7fff_f000;

/// Byte views of an optional payload.
pub open spec fn spec_opt_bytes(data: Option<&[u8]>) -> Option<Seq<u8>> {
    match data {
        Some(d) => Some(d@),
        None => None,
    }
}

/// Config for the serialization (allows setting advanced image properties).
pub struct Aviffy {
    premultiplied_alpha: bool,
    colr: ColrBox,
    min_seq_profile: u8,
    chroma_subsampling: (bool, bool),
}

impl Aviffy {
    /// Whether the color payload is declared premultiplied by alpha.
    pub closed spec fn spec_premultiplied(&self) -> bool {
        self.premultiplied_alpha
    }

    /// The color characteristics the file will carry.
    pub closed spec fn spec_colr(&self) -> ColrBox {
        self.colr
    }

    /// Lower bound on the codec profile written to the configuration
    /// record.
    pub closed spec fn spec_min_profile(&self) -> u8 {
        self.min_seq_profile
    }

    /// The declared chroma subsampling of the color payload.
    pub closed spec fn spec_subsampling(&self) -> (bool, bool) {
        self.chroma_subsampling
    }
}

/// Codec profile of the color plane: the caller's floor, raised to the
/// professional profile for 12-bit data.
pub open spec fn spec_seq_profile(min_profile: u8, depth_bits: u8) -> u8 {
    let base: u8 = if depth_bits >= 12 { 2 } else { 0 };
    if min_profile > base {
        min_profile
    } else {
        base
    }
}

/// Codec configuration record of the color plane.
pub open spec fn spec_color_av1c(
    min_profile: u8,
    ss_x: bool,
    ss_y: bool,
    depth_bits: u8,
) -> Av1CBox {
    Av1CBox {
        seq_profile: spec_seq_profile(min_profile, depth_bits),
        seq_level_idx_0: 31,
        seq_tier_0: false,
        high_bitdepth: depth_bits >= 10,
        twelve_bit: depth_bits >= 12,
        monochrome: false,
        chroma_subsampling_x: ss_x,
        chroma_subsampling_y: ss_y,
        chroma_sample_position: 0,
    }
}

/// Codec configuration record of the alpha plane: monochrome, with both
/// chroma-subsampling flags forced on since alpha has no chroma.
pub open spec fn spec_alpha_av1c(depth_bits: u8) -> Av1CBox {
    Av1CBox {
        seq_profile: if depth_bits >= 12 {
            2
        } else {
            0
        },
        seq_level_idx_0: 31,
        seq_tier_0: false,
        high_bitdepth: depth_bits >= 10,
        twelve_bit: depth_bits >= 12,
        monochrome: true,
        chroma_subsampling_x: true,
        chroma_subsampling_y: true,
        chroma_sample_position: 0,
    }
}

/// Byte image of the auxiliary-type record marking the alpha plane.
pub open spec fn spec_auxc_bytes() -> Seq<u8> {
    spec_full_boxed(spec_tag_auxc(), 0, spec_alpha_urn() + seq![0u8])
}

/// Byte image of the file-type record: brand `avif`, version 0, compatible
/// brands `mif1` and `miaf`.
pub open spec fn spec_ftyp_bytes() -> Seq<u8> {
    spec_boxed(spec_tag_ftyp(), spec_tag_avif() + spec_be32(0) + spec_tag_mif1() + spec_tag_miaf())
}

/// Byte image of an item-info entry for an AV1 item with an empty name.
pub open spec fn spec_infe_bytes(id: u16) -> Seq<u8> {
    spec_full_boxed(
        spec_tag_infe(),
        2,
        spec_be16(id) + spec_be16(0) + spec_tag_av01() + seq![0u8],
    )
}

/// Byte image of the item-info table.
pub open spec fn spec_iinf_bytes(alpha_present: bool) -> Seq<u8> {
    if alpha_present {
        spec_full_boxed(
            spec_tag_iinf(),
            0,
            spec_be16(2) + (spec_infe_bytes(1) + spec_infe_bytes(2)),
        )
    } else {
        spec_full_boxed(spec_tag_iinf(), 0, spec_be16(1) + spec_infe_bytes(1))
    }
}

/// Byte image of one reference edge.
pub open spec fn spec_iref_entry_bytes(from_id: u16, to_id: u16, tag: Seq<u8>) -> Seq<u8> {
    spec_boxed(tag, spec_be16(from_id) + spec_be16(1) + spec_be16(to_id))
}

/// Byte image of the item-reference table: absent without alpha, one
/// `auxl` edge with alpha, plus a `prem` edge when the color data is
/// declared premultiplied.
pub open spec fn spec_iref_bytes(alpha_present: bool, premultiplied: bool) -> Seq<u8> {
    if alpha_present {
        let auxl = spec_iref_entry_bytes(2, 1, spec_tag_auxl());
        if premultiplied {
            spec_full_boxed(
                spec_tag_iref(),
                0,
                auxl + spec_iref_entry_bytes(1, 2, spec_tag_prem()),
            )
        } else {
            spec_full_boxed(spec_tag_iref(), 0, auxl)
        }
    } else {
        Seq::empty()
    }
}

/// Byte image of one location entry with a single extent.
pub open spec fn spec_iloc_item_bytes(id: u16, offset: u32, len: u32) -> Seq<u8> {
    spec_be16(id) + spec_be16(0) + spec_be16(1) + spec_be32(offset) + spec_be32(len)
}

/// Byte image of the item-location table, with absolute offsets. With
/// alpha present the payload region holds alpha first, color second.
pub open spec fn spec_iloc_bytes(base: u32, color_len: u32, alpha_len: Option<u32>) -> Seq<u8> {
    match alpha_len {
        Some(alen) => spec_full_boxed(
            spec_tag_iloc(),
            0,
            seq![0x44u8, 0u8] + spec_be16(2)
                + (spec_iloc_item_bytes(1, (base + alen) as u32, color_len)
                    + spec_iloc_item_bytes(2, base, alen)),
        ),
        None => spec_full_boxed(
            spec_tag_iloc(),
            0,
            seq![0x44u8, 0u8] + spec_be16(1) + spec_iloc_item_bytes(1, base, color_len),
        ),
    }
}

/// Property indices associated with the color item: dimensions, essential
/// codec configuration, pixel information, and the color-information record
/// when present.
pub open spec fn spec_color_prop_ids(colr_present: bool) -> Seq<u8> {
    if colr_present {
        seq![1u8, 0x82u8, 3u8, 4u8]
    } else {
        seq![1u8, 0x82u8, 3u8]
    }
}

/// Property indices associated with the alpha item: dimensions, essential
/// codec configuration, auxiliary type, pixel information.
pub open spec fn spec_alpha_prop_ids(colr_present: bool) -> Seq<u8> {
    if colr_present {
        seq![1u8, 0x85u8, 7u8, 6u8]
    } else {
        seq![1u8, 0x84u8, 6u8, 5u8]
    }
}

/// Byte image of one property-association entry.
pub open spec fn spec_ipma_entry_bytes(item_id: u16, prop_ids: Seq<u8>) -> Seq<u8> {
    spec_be16(item_id) + seq![prop_ids.len() as u8] + prop_ids
}

/// Byte image of the property-association table.
pub open spec fn spec_ipma_bytes(colr_present: bool, alpha_present: bool) -> Seq<u8> {
    let color_entry = spec_ipma_entry_bytes(1, spec_color_prop_ids(colr_present));
    if alpha_present {
        spec_full_boxed(
            spec_tag_ipma(),
            0,
            spec_be32(2) + (color_entry
                + spec_ipma_entry_bytes(2, spec_alpha_prop_ids(colr_present))),
        )
    } else {
        spec_full_boxed(spec_tag_ipma(), 0, spec_be32(1) + color_entry)
    }
}

/// Byte images of the stored properties, in index order.
pub open spec fn spec_prop_bytes_list(
    colr: ColrBox,
    min_profile: u8,
    ss_x: bool,
    ss_y: bool,
    width: u32,
    height: u32,
    depth_bits: u8,
    alpha_present: bool,
) -> Seq<Seq<u8>> {
    let base = seq![
        (IspeBox { width, height }).spec_bytes(),
        spec_color_av1c(min_profile, ss_x, ss_y, depth_bits).spec_bytes(),
        (PixiBox { depth: depth_bits, channels: 3 }).spec_bytes(),
    ];
    let with_colr = if colr != spec_colr_default() {
        base.push(colr.spec_bytes())
    } else {
        base
    };
    if alpha_present {
        with_colr + seq![
            spec_alpha_av1c(depth_bits).spec_bytes(),
            (PixiBox { depth: depth_bits, channels: 1 }).spec_bytes(),
            spec_auxc_bytes(),
        ]
    } else {
        with_colr
    }
}

/// Byte image of the item-properties record.
pub open spec fn spec_iprp_bytes(
    colr: ColrBox,
    min_profile: u8,
    ss_x: bool,
    ss_y: bool,
    width: u32,
    height: u32,
    depth_bits: u8,
    alpha_present: bool,
) -> Seq<u8> {
    let ipco = spec_boxed(
        spec_tag_ipco(),
        concat_bytes(
            spec_prop_bytes_list(
                colr,
                min_profile,
                ss_x,
                ss_y,
                width,
                height,
                depth_bits,
                alpha_present,
            ),
        ),
    );
    let ipma = spec_ipma_bytes(colr != spec_colr_default(), alpha_present);
    spec_boxed(spec_tag_iprp(), ipco + ipma)
}

/// Total length of everything before the raw payload record: the file-type
/// record plus the metadata record.
pub open spec fn spec_header_len(
    colr_present: bool,
    alpha_present: bool,
    premultiplied: bool,
) -> int {
    let n_items: int = if alpha_present {
        2
    } else {
        1
    };
    let iloc = 16 + 14 * n_items;
    let iinf = 14 + 21 * n_items;
    let iref: int = if alpha_present {
        if premultiplied {
            40
        } else {
            26
        }
    } else {
        0
    };
    let ipco = 56 + (if colr_present {
        19int
    } else {
        0int
    }) + (if alpha_present {
        82int
    } else {
        0int
    });
    let ipma = 22 + (if colr_present {
        1int
    } else {
        0int
    }) + (if alpha_present {
        7int
    } else {
        0int
    });
    let meta = 12 + 33 + 14 + iloc + iinf + iref + (8 + ipco + ipma);
    24 + meta
}

/// Byte image of the metadata record, with the payload lengths already
/// reduced to the 32-bit values the location table stores.
pub open spec fn spec_meta_bytes(
    colr: ColrBox,
    premultiplied: bool,
    min_profile: u8,
    ss_x: bool,
    ss_y: bool,
    width: u32,
    height: u32,
    depth_bits: u8,
    color_len: u32,
    alpha_len: Option<u32>,
) -> Seq<u8> {
    let colr_present = colr != spec_colr_default();
    let alpha_present = alpha_len is Some;
    let base = (spec_header_len(colr_present, alpha_present, premultiplied) + 8) as u32;
    let meta_body = (HdlrBox {}).spec_bytes() + (PitmBox(1)).spec_bytes()
        + spec_iloc_bytes(base, color_len, alpha_len) + spec_iinf_bytes(alpha_present)
        + spec_iref_bytes(alpha_present, premultiplied)
        + spec_iprp_bytes(colr, min_profile, ss_x, ss_y, width, height, depth_bits, alpha_present);
    spec_full_boxed(spec_tag_meta(), 0, meta_body)
}

/// The complete AVIF file, byte for byte, as a function of the
/// configuration and the inputs. This is what the builder is proved to
/// produce.
pub open spec fn spec_avif_bytes(
    colr: ColrBox,
    premultiplied: bool,
    min_profile: u8,
    ss_x: bool,
    ss_y: bool,
    color: Seq<u8>,
    alpha: Option<Seq<u8>>,
    width: u32,
    height: u32,
    depth_bits: u8,
) -> Seq<u8> {
    let alpha_len = match alpha {
        Some(ab) => Some(ab.len() as u32),
        None => None,
    };
    let mdat_body = match alpha {
        Some(ab) => ab + color,
        None => color,
    };
    spec_ftyp_bytes() + spec_meta_bytes(
        colr,
        premultiplied,
        min_profile,
        ss_x,
        ss_y,
        width,
        height,
        depth_bits,
        color.len() as u32,
        alpha_len,
    ) + spec_boxed(spec_tag_mdat(), mdat_body)
}

/// The item-properties record is as long as `spec_header_len` accounts
/// for.
#[verifier::rlimit(100)]
#[verifier::spinoff_prover]
proof fn lemma_iprp_bytes_len(
    colr: ColrBox,
    min_profile: u8,
    ss_x: bool,
    ss_y: bool,
    width: u32,
    height: u32,
    depth_bits: u8,
    alpha_present: bool,
)
    ensures
        spec_iprp_bytes(colr, min_profile, ss_x, ss_y, width, height, depth_bits, alpha_present)
            .len() == 8 + (56 + (if colr != spec_colr_default() {
            19int
        } else {
            0int
        }) + (if alpha_present {
            82int
        } else {
            0int
        })) + (22 + (if colr != spec_colr_default() {
            1int
        } else {
            0int
        }) + (if alpha_present {
            7int
        } else {
            0int
        })),
{
    let colr_present = colr != spec_colr_default();
    let ispe_b = (IspeBox { width, height }).spec_bytes();
    let av1c_color_b = spec_color_av1c(min_profile, ss_x, ss_y, depth_bits).spec_bytes();
    let pixi3_b = (PixiBox { depth: depth_bits, channels: 3 }).spec_bytes();
    let colr_b = colr.spec_bytes();
    let av1c_alpha_b = spec_alpha_av1c(depth_bits).spec_bytes();
    let pixi1_b = (PixiBox { depth: depth_bits, channels: 1 }).spec_bytes();
    assert(ispe_b.len() == 20);
    assert(av1c_color_b.len() == 12);
    assert(pixi3_b.len() == 16) by {
        assert(seq![3u8] + Seq::new(3nat, |i: int| depth_bits) =~= seq![
            3u8,
            depth_bits,
            depth_bits,
            depth_bits,
        ]);
    }
    assert(colr_b.len() == 19);
    assert(av1c_alpha_b.len() == 12);
    assert(pixi1_b.len() == 14) by {
        assert(seq![1u8] + Seq::new(1nat, |i: int| depth_bits) =~= seq![1u8, depth_bits]);
    }
    assert(spec_alpha_urn().len() == 43);
    assert(spec_auxc_bytes().len() == 56);
    let plist = spec_prop_bytes_list(
        colr,
        min_profile,
        ss_x,
        ss_y,
        width,
        height,
        depth_bits,
        alpha_present,
    );
    if colr_present {
        if alpha_present {
            assert(plist =~~= seq![ispe_b, av1c_color_b, pixi3_b, colr_b, av1c_alpha_b, pixi1_b,
                spec_auxc_bytes()]);
            crate::boxes::lemma_concat_bytes_seven(
                ispe_b,
                av1c_color_b,
                pixi3_b,
                colr_b,
                av1c_alpha_b,
                pixi1_b,
                spec_auxc_bytes(),
            );
        } else {
            assert(plist =~~= seq![ispe_b, av1c_color_b, pixi3_b, colr_b]);
            crate::boxes::lemma_concat_bytes_four(ispe_b, av1c_color_b, pixi3_b, colr_b);
        }
    } else {
        if alpha_present {
            assert(plist =~~= seq![ispe_b, av1c_color_b, pixi3_b, av1c_alpha_b, pixi1_b,
                spec_auxc_bytes()]);
            crate::boxes::lemma_concat_bytes_six(
                ispe_b,
                av1c_color_b,
                pixi3_b,
                av1c_alpha_b,
                pixi1_b,
                spec_auxc_bytes(),
            );
        } else {
            assert(plist =~~= seq![ispe_b, av1c_color_b, pixi3_b]);
            crate::boxes::lemma_concat_bytes_three(ispe_b, av1c_color_b, pixi3_b);
        }
    }
    assert(concat_bytes(plist).len() == 48 + (if colr_present {
        19int
    } else {
        0int
    }) + (if alpha_present {
        82int
    } else {
        0int
    }));
    assert(spec_boxed(spec_tag_ipco(), concat_bytes(plist)).len() == 8 + concat_bytes(
        plist,
    ).len());
    assert(spec_color_prop_ids(colr_present).len() == (if colr_present {
        4int
    } else {
        3int
    }));
    assert(spec_alpha_prop_ids(colr_present).len() == 4);
    assert(spec_ipma_entry_bytes(1, spec_color_prop_ids(colr_present)).len() == 3
        + spec_color_prop_ids(colr_present).len());
    assert(spec_ipma_entry_bytes(2, spec_alpha_prop_ids(colr_present)).len() == 7);
    assert(spec_ipma_bytes(colr_present, alpha_present).len() == 22 + (if colr_present {
        1int
    } else {
        0int
    }) + (if alpha_present {
        7int
    } else {
        0int
    }));
}

/// The metadata record is as long as `spec_header_len` accounts for.
#[verifier::rlimit(100)]
#[verifier::spinoff_prover]
proof fn lemma_meta_bytes_len(
    colr: ColrBox,
    premultiplied: bool,
    min_profile: u8,
    ss_x: bool,
    ss_y: bool,
    width: u32,
    height: u32,
    depth_bits: u8,
    color_len: u32,
    alpha_len: Option<u32>,
)
    ensures
        spec_meta_bytes(
            colr,
            premultiplied,
            min_profile,
            ss_x,
            ss_y,
            width,
            height,
            depth_bits,
            color_len,
            alpha_len,
        ).len() == spec_header_len(
            colr != spec_colr_default(),
            alpha_len is Some,
            premultiplied,
        ) - 24,
        spec_meta_bytes(
            colr,
            premultiplied,
            min_profile,
            ss_x,
            ss_y,
            width,
            height,
            depth_bits,
            color_len,
            alpha_len,
        ).subrange(0, 4) == spec_be32(
            (spec_header_len(colr != spec_colr_default(), alpha_len is Some, premultiplied)
                - 24) as u32,
        ),
{
    let colr_present = colr != spec_colr_default();
    let alpha_present = alpha_len is Some;
    lemma_iprp_bytes_len(colr, min_profile, ss_x, ss_y, width, height, depth_bits, alpha_present);
    assert(spec_infe_bytes(1).len() == 21);
    assert(spec_infe_bytes(2).len() == 21);
    assert(spec_iref_entry_bytes(2, 1, spec_tag_auxl()).len() == 14);
    assert(spec_iref_entry_bytes(1, 2, spec_tag_prem()).len() == 14);
    assert(spec_iinf_bytes(alpha_present).len() == 14 + 21 * (if alpha_present {
        2int
    } else {
        1int
    }));
    assert(spec_iref_bytes(alpha_present, premultiplied).len() == (if alpha_present {
        if premultiplied {
            40int
        } else {
            26int
        }
    } else {
        0int
    }));
    let base = (spec_header_len(colr_present, alpha_present, premultiplied) + 8) as u32;
    assert(spec_iloc_bytes(base, color_len, alpha_len).len() == 16 + 14 * (if alpha_present {
        2int
    } else {
        1int
    }));
    assert((HdlrBox {}).spec_bytes().len() == 33);
    assert((PitmBox(1)).spec_bytes().len() == 14);
    let meta_body = (HdlrBox {}).spec_bytes() + (PitmBox(1)).spec_bytes()
        + spec_iloc_bytes(base, color_len, alpha_len) + spec_iinf_bytes(alpha_present)
        + spec_iref_bytes(alpha_present, premultiplied)
        + spec_iprp_bytes(colr, min_profile, ss_x, ss_y, width, height, depth_bits, alpha_present);
    assert(meta_body.len() == spec_header_len(colr_present, alpha_present, premultiplied) - 36);
    assert(spec_full_boxed(spec_tag_meta(), 0, meta_body).len() == 12 + meta_body.len());
    assert(spec_meta_bytes(
        colr,
        premultiplied,
        min_profile,
        ss_x,
        ss_y,
        width,
        height,
        depth_bits,
        color_len,
        alpha_len,
    ) == spec_full_boxed(spec_tag_meta(), 0, meta_body));
    assert(spec_full_boxed(spec_tag_meta(), 0, meta_body).subrange(0, 4) =~= spec_be32(
        (spec_header_len(colr_present, alpha_present, premultiplied) - 24) as u32,
    ));
}

/// Every record of the produced file declares in its length field exactly
/// the number of bytes it occupies. The `MpegBox` contract binds each
/// nested record to that invariant; this states it for the three
/// top-level records, whose declared lengths partition the whole output:
/// the file-type record at offset 0, the metadata record after it, and
/// the raw-data record covering everything to the end of the file.
#[verifier::rlimit(100)]
#[verifier::spinoff_prover]
pub proof fn lemma_record_lengths(
    colr: ColrBox,
    premultiplied: bool,
    min_profile: u8,
    ss_x: bool,
    ss_y: bool,
    color: Seq<u8>,
    alpha: Option<Seq<u8>>,
    width: u32,
    height: u32,
    depth_bits: u8,
)
    requires
        color.len() <= MAX_PAYLOAD_LEN,
        match alpha {
            Some(ab) => ab.len() <= MAX_PAYLOAD_LEN,
            None => true,
        },
    ensures
        ({
            let out = spec_avif_bytes(
                colr,
                premultiplied,
                min_profile,
                ss_x,
                ss_y,
                color,
                alpha,
                width,
                height,
                depth_bits,
            );
            let hlen = spec_header_len(colr != spec_colr_default(), alpha is Some, premultiplied);
            let alen: int = match alpha {
                Some(ab) => ab.len() as int,
                None => 0,
            };
            &&& out.len() == hlen + 8 + color.len() + alen
            &&& out.subrange(0, 4) == spec_be32(24)
            &&& out.subrange(4, 8) == spec_tag_ftyp()
            &&& out.subrange(24, 28) == spec_be32((hlen - 24) as u32)
            &&& out.subrange(28, 32) == spec_tag_meta()
            &&& out.subrange(hlen, hlen + 4) == spec_be32((8 + color.len() + alen) as u32)
            &&& out.subrange(hlen + 4, hlen + 8) == spec_tag_mdat()
        }),
{
    let alpha_len = match alpha {
        Some(ab) => Some(ab.len() as u32),
        None => None,
    };
    lemma_meta_bytes_len(
        colr,
        premultiplied,
        min_profile,
        ss_x,
        ss_y,
        width,
        height,
        depth_bits,
        color.len() as u32,
        alpha_len,
    );
    let out = spec_avif_bytes(
        colr,
        premultiplied,
        min_profile,
        ss_x,
        ss_y,
        color,
        alpha,
        width,
        height,
        depth_bits,
    );
    let hlen = spec_header_len(colr != spec_colr_default(), alpha is Some, premultiplied);
    let alen: int = match alpha {
        Some(ab) => ab.len() as int,
        None => 0,
    };
    let mdat_body = match alpha {
        Some(ab) => ab + color,
        None => color,
    };
    assert((spec_tag_avif() + spec_be32(0) + spec_tag_mif1() + spec_tag_miaf()).len() == 16);
    assert(spec_ftyp_bytes().len() == 24);
    assert(mdat_body.len() == alen + color.len());
    assert(spec_boxed(spec_tag_mdat(), mdat_body).len() == 8 + mdat_body.len());
    assert(out.len() == hlen + 8 + color.len() + alen);
    assert(out.subrange(0, 4) =~= spec_be32(24));
    assert(out.subrange(4, 8) =~= spec_tag_ftyp());
    assert(out.subrange(24, 28) =~= spec_be32((hlen - 24) as u32));
    assert(out.subrange(28, 32) =~= spec_tag_meta());
    assert(out.subrange(hlen, hlen + 4) =~= spec_be32((8 + color.len() + alen) as u32));
    assert(out.subrange(hlen + 4, hlen + 8) =~= spec_tag_mdat());
}

/// Re-parsing recovers the payloads byte for byte: each payload sits uncut
/// in the raw-data region at exactly the place the location table
/// declares; when alpha is supplied its bytes sit at the payload start,
/// immediately before the color bytes.
#[verifier::rlimit(100)]
#[verifier::spinoff_prover]
pub proof fn lemma_payload_recoverable(
    colr: ColrBox,
    premultiplied: bool,
    min_profile: u8,
    ss_x: bool,
    ss_y: bool,
    color: Seq<u8>,
    alpha: Option<Seq<u8>>,
    width: u32,
    height: u32,
    depth_bits: u8,
)
    requires
        color.len() <= MAX_PAYLOAD_LEN,
        match alpha {
            Some(ab) => ab.len() <= MAX_PAYLOAD_LEN,
            None => true,
        },
    ensures
        ({
            let out = spec_avif_bytes(
                colr,
                premultiplied,
                min_profile,
                ss_x,
                ss_y,
                color,
                alpha,
                width,
                height,
                depth_bits,
            );
            let base = spec_header_len(colr != spec_colr_default(), alpha is Some, premultiplied)
                + 8;
            match alpha {
                Some(ab) => out.subrange(base, base + ab.len()) == ab && out.subrange(
                    base + ab.len(),
                    base + ab.len() + color.len(),
                ) == color,
                None => out.subrange(base, base + color.len()) == color,
            }
        }),
{
    let alpha_len = match alpha {
        Some(ab) => Some(ab.len() as u32),
        None => None,
    };
    lemma_meta_bytes_len(
        colr,
        premultiplied,
        min_profile,
        ss_x,
        ss_y,
        width,
        height,
        depth_bits,
        color.len() as u32,
        alpha_len,
    );
    let out = spec_avif_bytes(
        colr,
        premultiplied,
        min_profile,
        ss_x,
        ss_y,
        color,
        alpha,
        width,
        height,
        depth_bits,
    );
    let base = spec_header_len(colr != spec_colr_default(), alpha is Some, premultiplied) + 8;
    assert((spec_tag_avif() + spec_be32(0) + spec_tag_mif1() + spec_tag_miaf()).len() == 16);
    assert(spec_ftyp_bytes().len() == 24);
    match alpha {
        Some(ab) => {
            assert(out.subrange(base, base + ab.len()) =~= ab);
            assert(out.subrange(base + ab.len(), base + ab.len() + color.len()) =~= color);
        },
        None => {
            assert(out.subrange(base, base + color.len()) =~= color);
        },
    }
}

/// The reference edges of a built file: none without alpha; with alpha,
/// exactly one edge marking the alpha item auxiliary to the color item,
/// and a premultiplication edge from the color item to the alpha item if
/// and only if the flag was set.
pub proof fn lemma_reference_edges(
    f: AvifFile,
    a: Aviffy,
    color: Seq<u8>,
    alpha: Option<Seq<u8>>,
    width: u32,
    height: u32,
    depth_bits: u8,
)
    requires
        is_built_file(f, a, color, alpha, width, height, depth_bits),
    ensures
        ({
            let es = f.meta.spec_iref_entries();
            &&& alpha is None ==> es.len() == 0
            &&& alpha is Some ==> {
                &&& es[0].from_id == 2 && es[0].to_id == 1 && es[0].typ.0@ == spec_tag_auxl()
                &&& forall|i: int|
                    0 <= i < es.len() && (#[trigger] es[i]).typ.0@ == spec_tag_auxl() ==> i == 0
                &&& a.spec_premultiplied() <==> exists|i: int|
                    0 <= i < es.len() && (#[trigger] es[i]).typ.0@ == spec_tag_prem()
                &&& a.spec_premultiplied() ==> es.len() == 2 && es[1].from_id == 1
                    && es[1].to_id == 2 && es[1].typ.0@ == spec_tag_prem()
            }
        }),
{
    let es = f.meta.spec_iref_entries();
    assert(spec_tag_auxl()[0] != spec_tag_prem()[0]);
    if alpha is Some {
        if a.spec_premultiplied() {
            assert(es[1].typ.0@ == spec_tag_prem());
        }
        assert forall|i: int|
            0 <= i < es.len() && (#[trigger] es[i]).typ.0@ == spec_tag_auxl() implies i == 0 by {
            if i != 0 {
                assert(es[i].typ.0@ == spec_tag_prem());
            }
        }
        if !a.spec_premultiplied() {
            assert forall|i: int| 0 <= i < es.len() implies (#[trigger] es[i]).typ.0@
                != spec_tag_prem() by {
                assert(es[i].typ.0@ == spec_tag_auxl());
            }
        }
    }
}

/// True of a record's bytes when its 4-byte type tag is the
/// color-information tag.
pub open spec fn spec_is_colr_record(b: Seq<u8>) -> bool {
    b.len() >= 8 && b.subrange(4, 8) == spec_tag_colr()
}

/// The property container holds a color-information record if and only if
/// the configured color characteristics differ from the defaults a decoder
/// assumes.
#[verifier::rlimit(100)]
#[verifier::spinoff_prover]
pub proof fn lemma_color_info_presence(
    colr: ColrBox,
    min_profile: u8,
    ss_x: bool,
    ss_y: bool,
    width: u32,
    height: u32,
    depth_bits: u8,
    alpha_present: bool,
)
    ensures
        ({
            let plist = spec_prop_bytes_list(
                colr,
                min_profile,
                ss_x,
                ss_y,
                width,
                height,
                depth_bits,
                alpha_present,
            );
            (exists|i: int| 0 <= i < plist.len() && spec_is_colr_record(#[trigger] plist[i]))
                <==> colr != spec_colr_default()
        }),
{
    let plist = spec_prop_bytes_list(
        colr,
        min_profile,
        ss_x,
        ss_y,
        width,
        height,
        depth_bits,
        alpha_present,
    );
    let colr_present = colr != spec_colr_default();
    let ispe_b = (IspeBox { width, height }).spec_bytes();
    let av1c_color_b = spec_color_av1c(min_profile, ss_x, ss_y, depth_bits).spec_bytes();
    let pixi3_b = (PixiBox { depth: depth_bits, channels: 3 }).spec_bytes();
    let colr_b = colr.spec_bytes();
    let av1c_alpha_b = spec_alpha_av1c(depth_bits).spec_bytes();
    let pixi1_b = (PixiBox { depth: depth_bits, channels: 1 }).spec_bytes();
    assert(spec_alpha_urn().len() == 43);
    assert(spec_is_colr_record(colr_b)) by {
        assert(colr_b.subrange(4, 8) =~= spec_tag_colr());
    }
    assert(!spec_is_colr_record(ispe_b)) by {
        assert(ispe_b.subrange(4, 8) =~= spec_tag_ispe());
        assert(spec_tag_ispe()[0] != spec_tag_colr()[0]);
    }
    assert(!spec_is_colr_record(av1c_color_b)) by {
        assert(av1c_color_b.subrange(4, 8) =~= spec_tag_av1c());
        assert(spec_tag_av1c()[0] != spec_tag_colr()[0]);
    }
    assert(!spec_is_colr_record(pixi3_b)) by {
        assert(seq![3u8] + Seq::new(3nat, |i: int| depth_bits) =~= seq![
            3u8,
            depth_bits,
            depth_bits,
            depth_bits,
        ]);
        assert(pixi3_b.subrange(4, 8) =~= spec_tag_pixi());
        assert(spec_tag_pixi()[0] != spec_tag_colr()[0]);
    }
    assert(!spec_is_colr_record(av1c_alpha_b)) by {
        assert(av1c_alpha_b.subrange(4, 8) =~= spec_tag_av1c());
        assert(spec_tag_av1c()[0] != spec_tag_colr()[0]);
    }
    assert(!spec_is_colr_record(pixi1_b)) by {
        assert(seq![1u8] + Seq::new(1nat, |i: int| depth_bits) =~= seq![1u8, depth_bits]);
        assert(pixi1_b.subrange(4, 8) =~= spec_tag_pixi());
        assert(spec_tag_pixi()[0] != spec_tag_colr()[0]);
    }
    assert(!spec_is_colr_record(spec_auxc_bytes())) by {
        assert(spec_auxc_bytes().subrange(4, 8) =~= spec_tag_auxc());
        assert(spec_tag_auxc()[0] != spec_tag_colr()[0]);
    }
    if colr_present {
        assert(plist[3] == colr_b);
        assert(spec_is_colr_record(plist[3]));
    } else {
        assert forall|i: int| 0 <= i < plist.len() implies !spec_is_colr_record(
            #[trigger] plist[i],
        ) by {
            if i == 0 {
                assert(plist[i] == ispe_b);
            } else if i == 1 {
                assert(plist[i] == av1c_color_b);
            } else if i == 2 {
                assert(plist[i] == pixi3_b);
            } else if i == 3 {
                assert(plist[i] == av1c_alpha_b);
            } else if i == 4 {
                assert(plist[i] == pixi1_b);
            } else {
                assert(plist[i] == spec_auxc_bytes());
            }
        }
    }
}

/// The output is a pure function of the configuration and the inputs:
/// serializing the same inputs twice gives byte-identical files. Together
/// with the contract of `to_vec`, whose result is pinned to
/// `spec_avif_bytes`, this rules out any nondeterminism in the builder.
pub proof fn lemma_output_deterministic(
    out1: Seq<u8>,
    out2: Seq<u8>,
    colr: ColrBox,
    premultiplied: bool,
    min_profile: u8,
    ss_x: bool,
    ss_y: bool,
    color: Seq<u8>,
    alpha: Option<Seq<u8>>,
    width: u32,
    height: u32,
    depth_bits: u8,
)
    requires
        out1 == spec_avif_bytes(
            colr,
            premultiplied,
            min_profile,
            ss_x,
            ss_y,
            color,
            alpha,
            width,
            height,
            depth_bits,
        ),
        out2 == spec_avif_bytes(
            colr,
            premultiplied,
            min_profile,
            ss_x,
            ss_y,
            color,
            alpha,
            width,
            height,
            depth_bits,
        ),
    ensures
        out1 == out2,
{
}

/// Field-by-field description of the record tree the builder assembles,
/// before the offset fixup: ids, properties, associations, reference edges
/// and relative payload locations.
pub open spec fn is_built_file(
    f: AvifFile,
    a: Aviffy,
    color: Seq<u8>,
    alpha: Option<Seq<u8>>,
    width: u32,
    height: u32,
    depth_bits: u8,
) -> bool {
    let colr_present = a.spec_colr() != spec_colr_default();
    let alpha_present = alpha is Some;
    let n_items: int = if alpha_present {
        2
    } else {
        1
    };
    let alpha_prop_base: int = if colr_present {
        4
    } else {
        3
    };
    &&& f.ftyp.major_brand.0@ == spec_tag_avif()
    &&& f.ftyp.minor_version == 0
    &&& f.ftyp.compatible_brands@.len() == 2
    &&& f.ftyp.compatible_brands@[0].0@ == spec_tag_mif1()
    &&& f.ftyp.compatible_brands@[1].0@ == spec_tag_miaf()
    &&& f.meta.pitm == (PitmBox(1))
    &&& f.meta.iinf.items@.len() == n_items
    &&& f.meta.iinf.items@[0].id == 1
    &&& f.meta.iinf.items@[0].typ.0@ == spec_tag_av01()
    &&& f.meta.iinf.items@[0].name@ == Seq::<u8>::empty()
    &&& alpha_present ==> {
        &&& f.meta.iinf.items@[1].id == 2
        &&& f.meta.iinf.items@[1].typ.0@ == spec_tag_av01()
        &&& f.meta.iinf.items@[1].name@ == Seq::<u8>::empty()
    }
    &&& f.meta.iloc.items@.len() == n_items
    &&& f.meta.iloc.items@[0].id == 1
    &&& f.meta.iloc.items@[0].extents@.len() == 1
    &&& f.meta.iloc.items@[0].extents@[0].len == color.len()
    &&& match alpha {
        Some(ab) => {
            &&& f.meta.iloc.items@[0].extents@[0].offset == IlocOffset::Relative(
                ab.len() as usize,
            )
            &&& f.meta.iloc.items@[1].id == 2
            &&& f.meta.iloc.items@[1].extents@.len() == 1
            &&& f.meta.iloc.items@[1].extents@[0].offset == IlocOffset::Relative(0usize)
            &&& f.meta.iloc.items@[1].extents@[0].len == ab.len()
        },
        None => f.meta.iloc.items@[0].extents@[0].offset == IlocOffset::Relative(0usize),
    }
    &&& f.meta.iref@.len() == (if !alpha_present {
        0int
    } else if a.spec_premultiplied() {
        2int
    } else {
        1int
    })
    &&& alpha_present ==> {
        &&& f.meta.iref@[0].entry.from_id == 2
        &&& f.meta.iref@[0].entry.to_id == 1
        &&& f.meta.iref@[0].entry.typ.0@ == spec_tag_auxl()
    }
    &&& (alpha_present && a.spec_premultiplied()) ==> {
        &&& f.meta.iref@[1].entry.from_id == 1
        &&& f.meta.iref@[1].entry.to_id == 2
        &&& f.meta.iref@[1].entry.typ.0@ == spec_tag_prem()
    }
    &&& f.meta.iprp.ipco.spec_props().len() == alpha_prop_base + (if alpha_present {
        3int
    } else {
        0int
    })
    &&& f.meta.iprp.ipco.spec_props()[0] == IpcoProp::Ispe(IspeBox { width, height })
    &&& f.meta.iprp.ipco.spec_props()[1] == IpcoProp::Av1C(
        spec_color_av1c(
            a.spec_min_profile(),
            a.spec_subsampling().0,
            a.spec_subsampling().1,
            depth_bits,
        ),
    )
    &&& f.meta.iprp.ipco.spec_props()[2] == IpcoProp::Pixi(
        PixiBox { depth: depth_bits, channels: 3 },
    )
    &&& colr_present ==> f.meta.iprp.ipco.spec_props()[3] == IpcoProp::Colr(a.spec_colr())
    &&& alpha_present ==> {
        &&& f.meta.iprp.ipco.spec_props()[alpha_prop_base] == IpcoProp::Av1C(
            spec_alpha_av1c(depth_bits),
        )
        &&& f.meta.iprp.ipco.spec_props()[alpha_prop_base + 1] == IpcoProp::Pixi(
            PixiBox { depth: depth_bits, channels: 1 },
        )
        &&& f.meta.iprp.ipco.spec_props()[alpha_prop_base + 2] matches IpcoProp::AuxC(b)
            && b.urn@ == spec_alpha_urn()
    }
    &&& f.meta.iprp.ipma.entries@.len() == n_items
    &&& f.meta.iprp.ipma.entries@[0].item_id == 1
    &&& f.meta.iprp.ipma.entries@[0].prop_ids@ == spec_color_prop_ids(colr_present)
    &&& alpha_present ==> {
        &&& f.meta.iprp.ipma.entries@[1].item_id == 2
        &&& f.meta.iprp.ipma.entries@[1].prop_ids@ == spec_alpha_prop_ids(colr_present)
    }
    &&& f.mdat.data_chunks@.len() == n_items
    &&& match alpha {
        Some(ab) => f.mdat.data_chunks@[0]@ == ab && f.mdat.data_chunks@[1]@ == color,
        None => f.mdat.data_chunks@[0]@ == color,
    }
}

/// Byte images and byte counts of each record of a freshly built file.
/// The location table still holds relative offsets, so only its length is
/// stated; every other record already has its final bytes.
#[verifier::rlimit(100)]
#[verifier::spinoff_prover]
proof fn lemma_built_parts(
    f: AvifFile,
    a: Aviffy,
    color: Seq<u8>,
    alpha: Option<Seq<u8>>,
    width: u32,
    height: u32,
    depth_bits: u8,
)
    requires
        is_built_file(f, a, color, alpha, width, height, depth_bits),
    ensures
        f.ftyp.spec_bytes() == spec_ftyp_bytes(),
        f.ftyp.spec_bytes().len() == 24,
        f.meta.iinf.spec_bytes() == spec_iinf_bytes(alpha is Some),
        f.meta.spec_iref_bytes() == spec_iref_bytes(alpha is Some, a.spec_premultiplied()),
        f.meta.iprp.spec_bytes() == spec_iprp_bytes(
            a.spec_colr(),
            a.spec_min_profile(),
            a.spec_subsampling().0,
            a.spec_subsampling().1,
            width,
            height,
            depth_bits,
            alpha is Some,
        ),
        f.meta.iloc.spec_bytes().len() == 16 + 14 * (if alpha is Some { 2int } else { 1int }),
        f.meta.spec_body().len() == spec_header_len(
            a.spec_colr() != spec_colr_default(),
            alpha is Some,
            a.spec_premultiplied(),
        ) - 36,
        f.meta.spec_bytes().len() == spec_header_len(
            a.spec_colr() != spec_colr_default(),
            alpha is Some,
            a.spec_premultiplied(),
        ) - 24,
        f.spec_payload_start() == spec_header_len(
            a.spec_colr() != spec_colr_default(),
            alpha is Some,
            a.spec_premultiplied(),
        ) + 8,
        f.mdat.spec_bytes() == spec_boxed(
            spec_tag_mdat(),
            match alpha {
                Some(ab) => ab + color,
                None => color,
            },
        ),
        f.ftyp.spec_body().len() == 16,
        f.meta.iinf.spec_body().len() == 2 + 21 * (if alpha is Some { 2int } else { 1int }),
        f.meta.iloc.spec_body().len() == 4 + 14 * (if alpha is Some { 2int } else { 1int }),
        f.meta.iprp.ipco.spec_body().len() == 48 + (if a.spec_colr() != spec_colr_default() {
            19int
        } else {
            0int
        }) + (if alpha is Some {
            82int
        } else {
            0int
        }),
        f.meta.iprp.ipma.spec_body().len() == 10 + (if a.spec_colr() != spec_colr_default() {
            1int
        } else {
            0int
        }) + (if alpha is Some {
            7int
        } else {
            0int
        }),
        f.meta.iprp.spec_body().len() == f.meta.iprp.ipco.spec_bytes().len()
            + f.meta.iprp.ipma.spec_bytes().len(),
        f.mdat.spec_body() == (match alpha {
            Some(ab) => ab + color,
            None => color,
        }),
{
    let colr_present = a.spec_colr() != spec_colr_default();
    let alpha_present = alpha is Some;
    let prem = a.spec_premultiplied();

    // File-type record.
    assert(f.ftyp.spec_brand_bytes() =~~= seq![spec_tag_mif1(), spec_tag_miaf()]);
    crate::boxes::lemma_concat_bytes_two(spec_tag_mif1(), spec_tag_miaf());
    assert(f.ftyp.spec_body() =~= spec_tag_avif() + spec_be32(0) + spec_tag_mif1()
        + spec_tag_miaf());
    assert(f.ftyp.spec_bytes() == spec_ftyp_bytes());
    assert(f.ftyp.spec_bytes().len() == 24);

    // Item-info table.
    assert(f.meta.iinf.items@[0].spec_bytes() == spec_infe_bytes(1)) by {
        assert(spec_be16(1) + spec_be16(0) + f.meta.iinf.items@[0].typ.0@
            + f.meta.iinf.items@[0].name@ + seq![0u8] =~= spec_be16(1) + spec_be16(0)
            + spec_tag_av01() + seq![0u8]);
    }
    assert(spec_infe_bytes(1).len() == 21);
    assert(spec_infe_bytes(2).len() == 21);
    if alpha_present {
        assert(f.meta.iinf.items@[1].spec_bytes() == spec_infe_bytes(2)) by {
            assert(spec_be16(2) + spec_be16(0) + f.meta.iinf.items@[1].typ.0@
                + f.meta.iinf.items@[1].name@ + seq![0u8] =~= spec_be16(2) + spec_be16(0)
                + spec_tag_av01() + seq![0u8]);
        }
        assert(f.meta.iinf.spec_item_bytes() =~~= seq![spec_infe_bytes(1), spec_infe_bytes(2)]);
        crate::boxes::lemma_concat_bytes_two(spec_infe_bytes(1), spec_infe_bytes(2));
    } else {
        assert(f.meta.iinf.spec_item_bytes() =~~= seq![spec_infe_bytes(1)]);
        crate::boxes::lemma_concat_bytes_one(spec_infe_bytes(1));
    }
    assert(f.meta.iinf.spec_bytes() == spec_iinf_bytes(alpha_present));
    assert(f.meta.iinf.spec_bytes().len() == 14 + 21 * (if alpha_present { 2int } else { 1int }));

    // Item-reference table.
    if alpha_present {
        assert(f.meta.iref@[0].entry.spec_bytes() == spec_iref_entry_bytes(
            2,
            1,
            spec_tag_auxl(),
        ));
        assert(spec_iref_entry_bytes(2, 1, spec_tag_auxl()).len() == 14);
        if prem {
            assert(f.meta.iref@[1].entry.spec_bytes() == spec_iref_entry_bytes(
                1,
                2,
                spec_tag_prem(),
            ));
            assert(f.meta.spec_iref_entries().map_values(|e: IrefEntryBox| e.spec_bytes())
                =~~= seq![
                spec_iref_entry_bytes(2, 1, spec_tag_auxl()),
                spec_iref_entry_bytes(1, 2, spec_tag_prem()),
            ]);
            crate::boxes::lemma_concat_bytes_two(
                spec_iref_entry_bytes(2, 1, spec_tag_auxl()),
                spec_iref_entry_bytes(1, 2, spec_tag_prem()),
            );
        } else {
            assert(f.meta.spec_iref_entries().map_values(|e: IrefEntryBox| e.spec_bytes())
                =~~= seq![spec_iref_entry_bytes(2, 1, spec_tag_auxl())]);
            crate::boxes::lemma_concat_bytes_one(spec_iref_entry_bytes(2, 1, spec_tag_auxl()));
        }
    }
    assert(f.meta.spec_iref_bytes() == spec_iref_bytes(alpha_present, prem));
    assert(f.meta.spec_iref_bytes().len() == (if alpha_present {
        if prem {
            40int
        } else {
            26int
        }
    } else {
        0int
    }));

    // Location table: only its length matters before the fixup.
    assert(f.meta.iloc.items@[0].spec_extent_bytes() =~~= seq![
        f.meta.iloc.items@[0].extents@[0].spec_bytes(),
    ]);
    crate::boxes::lemma_concat_bytes_one(f.meta.iloc.items@[0].extents@[0].spec_bytes());
    assert(f.meta.iloc.items@[0].spec_bytes().len() == 14);
    if alpha_present {
        assert(f.meta.iloc.items@[1].spec_extent_bytes() =~~= seq![
            f.meta.iloc.items@[1].extents@[0].spec_bytes(),
        ]);
        crate::boxes::lemma_concat_bytes_one(f.meta.iloc.items@[1].extents@[0].spec_bytes());
        assert(f.meta.iloc.items@[1].spec_bytes().len() == 14);
        assert(f.meta.iloc.spec_item_bytes() =~~= seq![
            f.meta.iloc.items@[0].spec_bytes(),
            f.meta.iloc.items@[1].spec_bytes(),
        ]);
        crate::boxes::lemma_concat_bytes_two(
            f.meta.iloc.items@[0].spec_bytes(),
            f.meta.iloc.items@[1].spec_bytes(),
        );
    } else {
        assert(f.meta.iloc.spec_item_bytes() =~~= seq![f.meta.iloc.items@[0].spec_bytes()]);
        crate::boxes::lemma_concat_bytes_one(f.meta.iloc.items@[0].spec_bytes());
    }
    assert(f.meta.iloc.spec_bytes().len() == 16 + 14 * (if alpha_present { 2int } else { 1int }));

    // Property container and associations.
    let props = f.meta.iprp.ipco.spec_props();
    let ispe_b = (IspeBox { width, height }).spec_bytes();
    let av1c_color_b = spec_color_av1c(
        a.spec_min_profile(),
        a.spec_subsampling().0,
        a.spec_subsampling().1,
        depth_bits,
    ).spec_bytes();
    let pixi3_b = (PixiBox { depth: depth_bits, channels: 3 }).spec_bytes();
    let colr_b = a.spec_colr().spec_bytes();
    let av1c_alpha_b = spec_alpha_av1c(depth_bits).spec_bytes();
    let pixi1_b = (PixiBox { depth: depth_bits, channels: 1 }).spec_bytes();
    assert(ispe_b.len() == 20);
    assert(av1c_color_b.len() == 12);
    assert(pixi3_b.len() == 16) by {
        assert(seq![3u8] + Seq::new(3nat, |i: int| depth_bits) =~= seq![
            3u8,
            depth_bits,
            depth_bits,
            depth_bits,
        ]);
    }
    assert(colr_b.len() == 19);
    assert(av1c_alpha_b.len() == 12);
    assert(pixi1_b.len() == 14) by {
        assert(seq![1u8] + Seq::new(1nat, |i: int| depth_bits) =~= seq![1u8, depth_bits]);
    }
    assert(spec_auxc_bytes().len() == 56);
    if alpha_present {
        assert(props[(if colr_present { 4int } else { 3int }) + 2].spec_bytes()
            == spec_auxc_bytes());
    }
    let plist = spec_prop_bytes_list(
        a.spec_colr(),
        a.spec_min_profile(),
        a.spec_subsampling().0,
        a.spec_subsampling().1,
        width,
        height,
        depth_bits,
        alpha_present,
    );
    let m = f.meta.iprp.ipco.spec_prop_bytes();
    if colr_present {
        if alpha_present {
            assert(m =~~= seq![ispe_b, av1c_color_b, pixi3_b, colr_b, av1c_alpha_b, pixi1_b,
                spec_auxc_bytes()]);
            assert(plist =~~= seq![ispe_b, av1c_color_b, pixi3_b, colr_b, av1c_alpha_b, pixi1_b,
                spec_auxc_bytes()]);
            crate::boxes::lemma_concat_bytes_seven(
                ispe_b,
                av1c_color_b,
                pixi3_b,
                colr_b,
                av1c_alpha_b,
                pixi1_b,
                spec_auxc_bytes(),
            );
        } else {
            assert(m =~~= seq![ispe_b, av1c_color_b, pixi3_b, colr_b]);
            assert(plist =~~= seq![ispe_b, av1c_color_b, pixi3_b, colr_b]);
            crate::boxes::lemma_concat_bytes_four(ispe_b, av1c_color_b, pixi3_b, colr_b);
        }
    } else {
        if alpha_present {
            assert(m =~~= seq![ispe_b, av1c_color_b, pixi3_b, av1c_alpha_b, pixi1_b,
                spec_auxc_bytes()]);
            assert(plist =~~= seq![ispe_b, av1c_color_b, pixi3_b, av1c_alpha_b, pixi1_b,
                spec_auxc_bytes()]);
            crate::boxes::lemma_concat_bytes_six(
                ispe_b,
                av1c_color_b,
                pixi3_b,
                av1c_alpha_b,
                pixi1_b,
                spec_auxc_bytes(),
            );
        } else {
            assert(m =~~= seq![ispe_b, av1c_color_b, pixi3_b]);
            assert(plist =~~= seq![ispe_b, av1c_color_b, pixi3_b]);
            crate::boxes::lemma_concat_bytes_three(ispe_b, av1c_color_b, pixi3_b);
        }
    }
    assert(m == plist);
    assert(f.meta.iprp.ipco.spec_body() == concat_bytes(plist));
    assert(f.meta.iprp.ipco.spec_bytes() == spec_boxed(spec_tag_ipco(), concat_bytes(plist)));
    assert(f.meta.iprp.ipco.spec_bytes().len() == 8 + 48 + (if colr_present {
        19int
    } else {
        0int
    }) + (if alpha_present {
        82int
    } else {
        0int
    }));

    assert(f.meta.iprp.ipma.entries@[0].spec_bytes() == spec_ipma_entry_bytes(
        1,
        spec_color_prop_ids(colr_present),
    ));
    if alpha_present {
        assert(f.meta.iprp.ipma.entries@[1].spec_bytes() == spec_ipma_entry_bytes(
            2,
            spec_alpha_prop_ids(colr_present),
        ));
        assert(f.meta.iprp.ipma.spec_entry_bytes() =~~= seq![
            spec_ipma_entry_bytes(1, spec_color_prop_ids(colr_present)),
            spec_ipma_entry_bytes(2, spec_alpha_prop_ids(colr_present)),
        ]);
        crate::boxes::lemma_concat_bytes_two(
            spec_ipma_entry_bytes(1, spec_color_prop_ids(colr_present)),
            spec_ipma_entry_bytes(2, spec_alpha_prop_ids(colr_present)),
        );
    } else {
        assert(f.meta.iprp.ipma.spec_entry_bytes() =~~= seq![
            spec_ipma_entry_bytes(1, spec_color_prop_ids(colr_present)),
        ]);
        crate::boxes::lemma_concat_bytes_one(
            spec_ipma_entry_bytes(1, spec_color_prop_ids(colr_present)),
        );
    }
    assert(f.meta.iprp.ipma.spec_bytes() == spec_ipma_bytes(colr_present, alpha_present));
    assert(f.meta.iprp.ipma.spec_bytes().len() == 22 + (if colr_present {
        1int
    } else {
        0int
    }) + (if alpha_present {
        7int
    } else {
        0int
    }));

    assert(f.meta.iprp.spec_bytes() == spec_iprp_bytes(
        a.spec_colr(),
        a.spec_min_profile(),
        a.spec_subsampling().0,
        a.spec_subsampling().1,
        width,
        height,
        depth_bits,
        alpha_present,
    ));

    // Metadata record total.
    assert(f.meta.spec_body().len() == spec_header_len(colr_present, alpha_present, prem) - 36);
    assert(f.meta.spec_bytes().len() == spec_header_len(colr_present, alpha_present, prem) - 24);
    assert(f.spec_payload_start() == spec_header_len(colr_present, alpha_present, prem) + 8);

    // Raw-data record.
    match alpha {
        Some(ab) => {
            assert(f.mdat.spec_chunk_bytes() =~~= seq![ab, color]);
            crate::boxes::lemma_concat_bytes_two(ab, color);
            assert(f.mdat.spec_bytes() == spec_boxed(spec_tag_mdat(), ab + color));
        },
        None => {
            assert(f.mdat.spec_chunk_bytes() =~~= seq![color]);
            crate::boxes::lemma_concat_bytes_one(color);
            assert(f.mdat.spec_bytes() == spec_boxed(spec_tag_mdat(), color));
        },
    }
}

/// A freshly built file is well formed and its relative offsets stay
/// within the 32-bit offset field, provided the payloads are within the
/// size cap.
#[verifier::rlimit(100)]
#[verifier::spinoff_prover]
proof fn lemma_built_pre(
    f: AvifFile,
    a: Aviffy,
    color: Seq<u8>,
    alpha: Option<Seq<u8>>,
    width: u32,
    height: u32,
    depth_bits: u8,
)
    requires
        is_built_file(f, a, color, alpha, width, height, depth_bits),
        color.len() <= MAX_PAYLOAD_LEN,
        match alpha {
            Some(ab) => ab.len() <= MAX_PAYLOAD_LEN,
            None => true,
        },
    ensures
        f.wf(),
        f.spec_offsets_fixable(),
{
    lemma_built_parts(f, a, color, alpha, width, height, depth_bits);
    let alpha_present = alpha is Some;
    assert(spec_alpha_urn().len() == 43);
    assert(f.ftyp.wf());
    assert forall|i: int| 0 <= i < f.meta.iinf.items@.len() implies
        (#[trigger] f.meta.iinf.items@[i]).wf() by {
        assert(f.meta.iinf.items@[i].name@.len() == 0);
    }
    assert(f.meta.iinf.wf());
    assert forall|i: int| 0 <= i < f.meta.iloc.items@.len() implies
        (#[trigger] f.meta.iloc.items@[i]).wf() by {
        assert(f.meta.iloc.items@[i].extents@.len() == 1);
        assert(f.meta.iloc.items@[i].extents@[0].len <= MAX_PAYLOAD_LEN);
    }
    assert(f.meta.iloc.wf());
    assert forall|i: int| 0 <= i < f.meta.iprp.ipco.spec_props().len() implies
        (#[trigger] f.meta.iprp.ipco.spec_props()[i]).wf() by {
        let alpha_prop_base: int = if a.spec_colr() != spec_colr_default() {
            4
        } else {
            3
        };
        if alpha_present && i == alpha_prop_base + 2 {
            assert(f.meta.iprp.ipco.spec_props()[i] matches IpcoProp::AuxC(b)
                && b.urn@ == spec_alpha_urn());
        }
    }
    assert(f.meta.iprp.ipco.wf());
    assert forall|i: int| 0 <= i < f.meta.iprp.ipma.entries@.len() implies
        (#[trigger] f.meta.iprp.ipma.entries@[i]).wf() by {
        assert(spec_color_prop_ids(a.spec_colr() != spec_colr_default()).len() <= 4);
        assert(spec_alpha_prop_ids(a.spec_colr() != spec_colr_default()).len() <= 4);
    }
    assert(f.meta.iprp.ipma.wf());
    assert(f.meta.iprp.wf());
    assert(f.meta.wf());
    assert(f.mdat.wf());
    assert(f.wf());
    assert forall|i: int, j: int|
        0 <= i < f.meta.iloc.items@.len() && 0 <= j < f.meta.iloc.items@[i].extents@.len()
        implies match (#[trigger] f.meta.iloc.items@[i].extents@[j]).offset {
            IlocOffset::Relative(n) => n + f.spec_payload_start() <= u32::MAX,
            IlocOffset::Absolute(_) => true,
        } by {
        assert(j == 0);
        match alpha {
            Some(ab) => {
                assert(f.meta.iloc.items@[0].extents@[0].offset == IlocOffset::Relative(
                    ab.len() as usize,
                ));
                assert(f.meta.iloc.items@[1].extents@[0].offset == IlocOffset::Relative(0usize));
            },
            None => {
                assert(f.meta.iloc.items@[0].extents@[0].offset == IlocOffset::Relative(0usize));
            },
        }
    }
}

/// The fixed-up location table holds, for each item, the absolute offset
/// of its payload bytes.
#[verifier::rlimit(100)]
#[verifier::spinoff_prover]
proof fn lemma_fixed_iloc_bytes(
    f1: AvifFile,
    f2: AvifFile,
    a: Aviffy,
    color: Seq<u8>,
    alpha: Option<Seq<u8>>,
    width: u32,
    height: u32,
    depth_bits: u8,
)
    requires
        is_built_file(f1, a, color, alpha, width, height, depth_bits),
        color.len() <= MAX_PAYLOAD_LEN,
        match alpha {
            Some(ab) => ab.len() <= MAX_PAYLOAD_LEN,
            None => true,
        },
        crate::boxes::spec_fixed_file(f1, f2),
        f1.spec_payload_start() == spec_header_len(
            a.spec_colr() != spec_colr_default(),
            alpha is Some,
            a.spec_premultiplied(),
        ) + 8,
    ensures
        f2.meta.iloc.spec_bytes() == (match alpha {
            Some(ab) => spec_iloc_bytes(
                (spec_header_len(
                    a.spec_colr() != spec_colr_default(),
                    true,
                    a.spec_premultiplied(),
                ) + 8) as u32,
                color.len() as u32,
                Some(ab.len() as u32),
            ),
            None => spec_iloc_bytes(
                (spec_header_len(
                    a.spec_colr() != spec_colr_default(),
                    false,
                    a.spec_premultiplied(),
                ) + 8) as u32,
                color.len() as u32,
                None,
            ),
        }),
{
    let colr_present = a.spec_colr() != spec_colr_default();
    let alpha_present = alpha is Some;
    let prem = a.spec_premultiplied();
    let hlen = spec_header_len(colr_present, alpha_present, prem);
    let base = (hlen + 8) as u32;
    let start = f1.spec_payload_start() as u32;
    assert(start == base);
    let clen = color.len() as u32;
    let it0 = f2.meta.iloc.items@[0];
    assert(it0.extents@[0] == (IlocExtent {
        offset: spec_absolutize(f1.meta.iloc.items@[0].extents@[0].offset, start),
        len: f1.meta.iloc.items@[0].extents@[0].len,
    }));
    assert(it0.spec_extent_bytes() =~~= seq![it0.extents@[0].spec_bytes()]);
    crate::boxes::lemma_concat_bytes_one(it0.extents@[0].spec_bytes());
    match alpha {
        Some(ab) => {
            let alen = ab.len() as u32;
            assert(it0.extents@[0].offset == IlocOffset::Absolute(
                (ab.len() as usize + start) as u32,
            ));
            assert((ab.len() as usize + start) as u32 == (base + alen) as u32);
            assert(it0.spec_bytes() == spec_iloc_item_bytes(1, (base + alen) as u32, clen)) by {
                assert(it0.extents@[0].spec_bytes() =~= spec_be32((base + alen) as u32)
                    + spec_be32(clen));
            }
            let it1 = f2.meta.iloc.items@[1];
            assert(it1.extents@[0] == (IlocExtent {
                offset: spec_absolutize(f1.meta.iloc.items@[1].extents@[0].offset, start),
                len: f1.meta.iloc.items@[1].extents@[0].len,
            }));
            assert(it1.spec_extent_bytes() =~~= seq![it1.extents@[0].spec_bytes()]);
            crate::boxes::lemma_concat_bytes_one(it1.extents@[0].spec_bytes());
            assert(it1.spec_bytes() == spec_iloc_item_bytes(2, base, alen)) by {
                assert(it1.extents@[0].spec_bytes() =~= spec_be32(base) + spec_be32(alen));
            }
            assert(f2.meta.iloc.spec_item_bytes() =~~= seq![it0.spec_bytes(), it1.spec_bytes()]);
            crate::boxes::lemma_concat_bytes_two(it0.spec_bytes(), it1.spec_bytes());
            assert(f2.meta.iloc.spec_body() =~= seq![0x44u8, 0u8] + spec_be16(2)
                + (spec_iloc_item_bytes(1, (base + alen) as u32, clen)
                    + spec_iloc_item_bytes(2, base, alen)));
            assert(f2.meta.iloc.spec_bytes() == spec_iloc_bytes(base, clen, Some(alen)));
        },
        None => {
            assert(it0.extents@[0].offset == IlocOffset::Absolute((0usize + start) as u32));
            assert(it0.spec_bytes() == spec_iloc_item_bytes(1, base, clen)) by {
                assert(it0.extents@[0].spec_bytes() =~= spec_be32(base) + spec_be32(clen));
            }
            assert(f2.meta.iloc.spec_item_bytes() =~~= seq![it0.spec_bytes()]);
            crate::boxes::lemma_concat_bytes_one(it0.spec_bytes());
            assert(f2.meta.iloc.spec_body() =~= seq![0x44u8, 0u8] + spec_be16(1)
                + spec_iloc_item_bytes(1, base, clen));
            assert(f2.meta.iloc.spec_bytes() == spec_iloc_bytes(base, clen, None));
        },
    }
}

/// After the offset fixup, the built file serializes to exactly the bytes
/// `spec_avif_bytes` states.
#[verifier::rlimit(100)]
#[verifier::spinoff_prover]
proof fn lemma_built_post(
    f1: AvifFile,
    f2: AvifFile,
    a: Aviffy,
    color: Seq<u8>,
    alpha: Option<Seq<u8>>,
    width: u32,
    height: u32,
    depth_bits: u8,
)
    requires
        is_built_file(f1, a, color, alpha, width, height, depth_bits),
        color.len() <= MAX_PAYLOAD_LEN,
        match alpha {
            Some(ab) => ab.len() <= MAX_PAYLOAD_LEN,
            None => true,
        },
        crate::boxes::spec_fixed_file(f1, f2),
    ensures
        f2.ftyp.spec_bytes() + f2.meta.spec_bytes() + f2.mdat.spec_bytes() == spec_avif_bytes(
            a.spec_colr(),
            a.spec_premultiplied(),
            a.spec_min_profile(),
            a.spec_subsampling().0,
            a.spec_subsampling().1,
            color,
            alpha,
            width,
            height,
            depth_bits,
        ),
{
    lemma_built_parts(f1, a, color, alpha, width, height, depth_bits);
    let colr_present = a.spec_colr() != spec_colr_default();
    let alpha_present = alpha is Some;
    let prem = a.spec_premultiplied();
    let hlen = spec_header_len(colr_present, alpha_present, prem);
    let base = (hlen + 8) as u32;
    let start = f1.spec_payload_start() as u32;
    assert(start == base);
    let clen = color.len() as u32;
    lemma_fixed_iloc_bytes(f1, f2, a, color, alpha, width, height, depth_bits);

    // The rest of the metadata record is unchanged by the fixup.
    let iloc_b = match alpha {
        Some(ab) => spec_iloc_bytes(base, clen, Some(ab.len() as u32)),
        None => spec_iloc_bytes(base, clen, None),
    };
    let iprp_b = spec_iprp_bytes(
        a.spec_colr(),
        a.spec_min_profile(),
        a.spec_subsampling().0,
        a.spec_subsampling().1,
        width,
        height,
        depth_bits,
        alpha_present,
    );
    assert(f2.meta.hdlr.spec_bytes() == (HdlrBox {}).spec_bytes());
    assert(f2.meta.pitm.spec_bytes() == (PitmBox(1)).spec_bytes());
    assert(f2.meta.iinf.spec_bytes() == spec_iinf_bytes(alpha_present));
    assert(f2.meta.spec_iref_entries() == f1.meta.spec_iref_entries());
    assert(f2.meta.spec_iref_bytes() == spec_iref_bytes(alpha_present, prem));
    assert(f2.meta.iprp.spec_bytes() == iprp_b);
    assert(f2.meta.spec_body() == (HdlrBox {}).spec_bytes() + (PitmBox(1)).spec_bytes() + iloc_b
        + spec_iinf_bytes(alpha_present) + spec_iref_bytes(alpha_present, prem) + iprp_b);
    assert(f2.meta.spec_bytes() == spec_full_boxed(
        spec_tag_meta(),
        0,
        f2.meta.spec_body(),
    ));

    // Assemble the whole file.
    assert(f2.ftyp.spec_bytes() == spec_ftyp_bytes());
    assert(f2.mdat.spec_bytes() == spec_boxed(
        spec_tag_mdat(),
        match alpha {
            Some(ab) => ab + color,
            None => color,
        },
    ));
    assert(f2.ftyp.spec_bytes() + f2.meta.spec_bytes() + f2.mdat.spec_bytes()
        == spec_avif_bytes(
        a.spec_colr(),
        a.spec_premultiplied(),
        a.spec_min_profile(),
        a.spec_subsampling().0,
        a.spec_subsampling().1,
        color,
        alpha,
        width,
        height,
        depth_bits,
    ));
}

impl Aviffy {
    #[must_use]
    pub fn new() -> (r: Self)
        ensures
            r.spec_colr() == spec_colr_default(),
            !r.spec_premultiplied(),
            r.spec_min_profile() == 1,
            r.spec_subsampling() == (false, false),
    {
        Aviffy {
            premultiplied_alpha: false,
            min_seq_profile: 1,
            chroma_subsampling: (false, false),
            colr: ColrBox::default(),
        }
    }

    /// Declares whether the color data was premultiplied by alpha before
    /// compression. This only toggles a metadata edge; it never transforms
    /// payload bytes.
    pub fn premultiplied_alpha(self, is_premultiplied: bool) -> (r: Self)
        ensures
            r.spec_premultiplied() == is_premultiplied,
            r.spec_colr() == self.spec_colr(),
            r.spec_min_profile() == self.spec_min_profile(),
            r.spec_subsampling() == self.spec_subsampling(),
    {
        Aviffy { premultiplied_alpha: is_premultiplied, ..self }
    }

    /// If set, must match the AV1 color payload, and results in a
    /// color-information record in the file.
    pub fn matrix_coefficients(self, matrix_coefficients: MatrixCoefficients) -> (r: Self)
        ensures
            r.spec_colr() == (ColrBox { matrix_coefficients, ..self.spec_colr() }),
            r.spec_premultiplied() == self.spec_premultiplied(),
            r.spec_min_profile() == self.spec_min_profile(),
            r.spec_subsampling() == self.spec_subsampling(),
    {
        let colr = ColrBox { matrix_coefficients, ..self.colr };
        Aviffy { colr, ..self }
    }

    /// If set, must match the AV1 color payload, and results in a
    /// color-information record in the file.
    pub fn transfer_characteristics(
        self,
        transfer_characteristics: TransferCharacteristics,
    ) -> (r: Self)
        ensures
            r.spec_colr() == (ColrBox { transfer_characteristics, ..self.spec_colr() }),
            r.spec_premultiplied() == self.spec_premultiplied(),
            r.spec_min_profile() == self.spec_min_profile(),
            r.spec_subsampling() == self.spec_subsampling(),
    {
        let colr = ColrBox { transfer_characteristics, ..self.colr };
        Aviffy { colr, ..self }
    }

    /// If set, must match the AV1 color payload, and results in a
    /// color-information record in the file.
    pub fn color_primaries(self, color_primaries: ColorPrimaries) -> (r: Self)
        ensures
            r.spec_colr() == (ColrBox { color_primaries, ..self.spec_colr() }),
            r.spec_premultiplied() == self.spec_premultiplied(),
            r.spec_min_profile() == self.spec_min_profile(),
            r.spec_subsampling() == self.spec_subsampling(),
    {
        let colr = ColrBox { color_primaries, ..self.colr };
        Aviffy { colr, ..self }
    }

    /// If set, must match the AV1 color payload, and results in a
    /// color-information record in the file.
    pub fn full_color_range(self, full_range: bool) -> (r: Self)
        ensures
            r.spec_colr() == (ColrBox { full_range_flag: full_range, ..self.spec_colr() }),
            r.spec_premultiplied() == self.spec_premultiplied(),
            r.spec_min_profile() == self.spec_min_profile(),
            r.spec_subsampling() == self.spec_subsampling(),
    {
        let colr = ColrBox { full_range_flag: full_range, ..self.colr };
        Aviffy { colr, ..self }
    }

    /// Declares the chroma subsampling the color payload was encoded with.
    pub fn set_chroma_subsampling(self, subsampled_xy: (bool, bool)) -> (r: Self)
        ensures
            r.spec_subsampling() == subsampled_xy,
            r.spec_colr() == self.spec_colr(),
            r.spec_premultiplied() == self.spec_premultiplied(),
            r.spec_min_profile() == self.spec_min_profile(),
    {
        Aviffy { chroma_subsampling: subsampled_xy, ..self }
    }

    /// Sets a floor on the codec profile written to the configuration
    /// record.
    pub fn set_seq_profile(self, seq_profile: u8) -> (r: Self)
        ensures
            r.spec_min_profile() == seq_profile,
            r.spec_colr() == self.spec_colr(),
            r.spec_premultiplied() == self.spec_premultiplied(),
            r.spec_subsampling() == self.spec_subsampling(),
    {
        Aviffy { min_seq_profile: seq_profile, ..self }
    }

    /// Makes an AVIF file from already-encoded AV1 data.
    ///
    /// `color_av1_data` is the encoded color image; the optional
    /// `alpha_av1_data` is an encoded monochrome transparency image of the
    /// same dimensions and depth. `width` and `height` are in pixels and
    /// `depth_bits` is the bit depth both payloads were encoded with,
    /// normally 8, 10 or 12. The returned bytes are exactly
    /// `spec_avif_bytes` of the configuration and the inputs.
    #[must_use]
    pub fn to_vec(
        &self,
        color_av1_data: &[u8],
        alpha_av1_data: Option<&[u8]>,
        width: u32,
        height: u32,
        depth_bits: u8,
    ) -> (out: Vec<u8>)
        requires
            color_av1_data@.len() <= MAX_PAYLOAD_LEN,
            match alpha_av1_data {
                Some(ab) => ab@.len() <= MAX_PAYLOAD_LEN,
                None => true,
            },
        ensures
            out@ == spec_avif_bytes(
                self.spec_colr(),
                self.spec_premultiplied(),
                self.spec_min_profile(),
                self.spec_subsampling().0,
                self.spec_subsampling().1,
                color_av1_data@,
                spec_opt_bytes(alpha_av1_data),
                width,
                height,
                depth_bits,
            ),
    {
        let mut file = self.make_boxes(color_av1_data, alpha_av1_data, width, height, depth_bits);
        let ghost built = file;
        proof {
            lemma_built_pre(
                built,
                *self,
                color_av1_data@,
                spec_opt_bytes(alpha_av1_data),
                width,
                height,
                depth_bits,
            );
        }
        let out = file.write();
        proof {
            lemma_built_post(
                built,
                file,
                *self,
                color_av1_data@,
                spec_opt_bytes(alpha_av1_data),
                width,
                height,
                depth_bits,
            );
        }
        out
    }

    /// Assembles the whole record tree for the given payloads, with
    /// relative payload offsets still to be absolutized.
    fn make_boxes(
        &self,
        color_av1_data: &[u8],
        alpha_av1_data: Option<&[u8]>,
        width: u32,
        height: u32,
        depth_bits: u8,
    ) -> (r: AvifFile)
        ensures
            is_built_file(
                r,
                *self,
                color_av1_data@,
                spec_opt_bytes(alpha_av1_data),
                width,
                height,
                depth_bits,
            ),
    {
        let mut image_items: Vec<InfeBox> = Vec::new();
        let mut iloc_items: Vec<IlocItem> = Vec::new();
        let mut compatible_brands: Vec<FourCC> = Vec::new();
        let mut ipma_entries: Vec<IpmaEntry> = Vec::new();
        let mut data_chunks: Vec<Vec<u8>> = Vec::new();
        let mut irefs: Vec<IrefBox> = Vec::new();
        let mut ipco = IpcoBox::new();
        let color_image_id: u16 = 1;
        let alpha_image_id: u16 = 2;
        let essential_bit: u8 = 0x80;
        let color_depth_bits = depth_bits;
        let alpha_depth_bits = depth_bits;

        image_items.push(InfeBox { id: color_image_id, typ: FourCC(four(0x61, 0x76, 0x30, 0x31)), name: Vec::new() });
        let ispe_prop = ipco.push(IpcoProp::Ispe(IspeBox { width, height }));
        let base_profile: u8 = if color_depth_bits >= 12 {
            2
        } else {
            0
        };
        let seq_profile = if self.min_seq_profile > base_profile {
            self.min_seq_profile
        } else {
            base_profile
        };
        let av1c_color_prop = ipco.push(IpcoProp::Av1C(Av1CBox {
            seq_profile,
            seq_level_idx_0: 31,
            seq_tier_0: false,
            high_bitdepth: color_depth_bits >= 10,
            twelve_bit: color_depth_bits >= 12,
            monochrome: false,
            chroma_subsampling_x: self.chroma_subsampling.0,
            chroma_subsampling_y: self.chroma_subsampling.1,
            chroma_sample_position: 0,
        }));
        let pixi_3 = ipco.push(IpcoProp::Pixi(PixiBox { channels: 3, depth: color_depth_bits }));
        proof {
            assert((2u8 | 0x80u8) == 0x82u8 && (4u8 | 0x80u8) == 0x84u8 && (5u8 | 0x80u8)
                == 0x85u8) by (bit_vector);
        }
        let mut prop_ids: Vec<u8> = Vec::new();
        prop_ids.push(ispe_prop);
        prop_ids.push(av1c_color_prop | essential_bit);
        prop_ids.push(pixi_3);
        let colr_used = self.colr != ColrBox::default();
        if colr_used {
            let colr_color_prop = ipco.push(IpcoProp::Colr(self.colr));
            prop_ids.push(colr_color_prop);
        }
        proof {
            assert(prop_ids@ =~= spec_color_prop_ids(
                self.spec_colr() != spec_colr_default(),
            ));
        }
        ipma_entries.push(IpmaEntry { item_id: color_image_id, prop_ids });

        if let Some(alpha_data) = alpha_av1_data {
            image_items.push(InfeBox { id: alpha_image_id, typ: FourCC(four(0x61, 0x76, 0x30, 0x31)), name: Vec::new() });
            let av1c_alpha_prop = ipco.push(IpcoProp::Av1C(Av1CBox {
                seq_profile: if alpha_depth_bits >= 12 {
                    2
                } else {
                    0
                },
                seq_level_idx_0: 31,
                seq_tier_0: false,
                high_bitdepth: alpha_depth_bits >= 10,
                twelve_bit: alpha_depth_bits >= 12,
                monochrome: true,
                chroma_subsampling_x: true,
                chroma_subsampling_y: true,
                chroma_sample_position: 0,
            }));
            let pixi_1 = ipco.push(IpcoProp::Pixi(PixiBox { channels: 1, depth: alpha_depth_bits }));
            let auxc_prop = ipco.push(IpcoProp::AuxC(AuxCBox { urn: alpha_urn() }));
            irefs.push(IrefBox {
                entry: IrefEntryBox {
                    from_id: alpha_image_id,
                    to_id: color_image_id,
                    typ: FourCC(four(0x61, 0x75, 0x78, 0x6c)),
                },
            });
            if self.premultiplied_alpha {
                irefs.push(IrefBox {
                    entry: IrefEntryBox {
                        from_id: color_image_id,
                        to_id: alpha_image_id,
                        typ: FourCC(four(0x70, 0x72, 0x65, 0x6d)),
                    },
                });
            }
            let mut alpha_prop_ids: Vec<u8> = Vec::new();
            alpha_prop_ids.push(ispe_prop);
            alpha_prop_ids.push(av1c_alpha_prop | essential_bit);
            alpha_prop_ids.push(auxc_prop);
            alpha_prop_ids.push(pixi_1);
            proof {
                assert(alpha_prop_ids@ =~= spec_alpha_prop_ids(
                    self.spec_colr() != spec_colr_default(),
                ));
            }
            ipma_entries.push(IpmaEntry { item_id: alpha_image_id, prop_ids: alpha_prop_ids });

            // Alpha first, color second, so a receiver can render a preview
            // from the color bytes before alpha arrives.
            let mut color_extents: Vec<IlocExtent> = Vec::new();
            color_extents.push(IlocExtent {
                offset: IlocOffset::Relative(alpha_data.len()),
                len: color_av1_data.len(),
            });
            iloc_items.push(IlocItem { id: color_image_id, extents: color_extents });
            let mut alpha_extents: Vec<IlocExtent> = Vec::new();
            alpha_extents.push(IlocExtent {
                offset: IlocOffset::Relative(0),
                len: alpha_data.len(),
            });
            iloc_items.push(IlocItem { id: alpha_image_id, extents: alpha_extents });
            data_chunks.push(vstd::slice::slice_to_vec(alpha_data));
            data_chunks.push(vstd::slice::slice_to_vec(color_av1_data));
        } else {
            let mut color_extents: Vec<IlocExtent> = Vec::new();
            color_extents.push(IlocExtent {
                offset: IlocOffset::Relative(0),
                len: color_av1_data.len(),
            });
            iloc_items.push(IlocItem { id: color_image_id, extents: color_extents });
            data_chunks.push(vstd::slice::slice_to_vec(color_av1_data));
        }

        compatible_brands.push(FourCC(four(0x6d, 0x69, 0x66, 0x31)));
        compatible_brands.push(FourCC(four(0x6d, 0x69, 0x61, 0x66)));
        AvifFile {
            ftyp: FtypBox {
                major_brand: FourCC(four(0x61, 0x76, 0x69, 0x66)),
                minor_version: 0,
                compatible_brands,
            },
            meta: MetaBox {
                hdlr: HdlrBox {},
                iinf: IinfBox { items: image_items },
                pitm: PitmBox(color_image_id),
                iloc: IlocBox { items: iloc_items },
                iprp: IprpBox { ipco, ipma: IpmaBox { entries: ipma_entries } },
                iref: irefs,
            },
            mdat: MdatBox { data_chunks },
        }
    }
}

/// Makes an AVIF file from already-encoded AV1 data, with the default
/// configuration. See [`Aviffy::to_vec`] for the meaning of the
/// parameters.
#[must_use]
pub fn serialize_to_vec(
    color_av1_data: &[u8],
    alpha_av1_data: Option<&[u8]>,
    width: u32,
    height: u32,
    depth_bits: u8,
) -> (out: Vec<u8>)
    requires
        color_av1_data@.len() <= MAX_PAYLOAD_LEN,
        match alpha_av1_data {
            Some(ab) => ab@.len() <= MAX_PAYLOAD_LEN,
            None => true,
        },
    ensures
        out@ == spec_avif_bytes(
            spec_colr_default(),
            false,
            1,
            false,
            false,
            color_av1_data@,
            spec_opt_bytes(alpha_av1_data),
            width,
            height,
            depth_bits,
        ),
{
    Aviffy::new().to_vec(color_av1_data, alpha_av1_data, width, height, depth_bits)
}

} // verus!
