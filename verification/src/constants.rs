//! Enumerated tag values for the color-information record.
//!
//! The numeric codes are fixed by the coding-independent code points
//! registry; they are carried through into the file unchanged.

use vstd::prelude::*;

verus! {

#[derive(Debug, Copy, Clone, PartialEq, Eq, Structural)]
#[non_exhaustive]
pub enum ColorPrimaries {
    /// ITU-R BT1361
    Bt709,
    Unspecified,
    /// ITU-R BT601-6 525
    Bt601,
    /// ITU-R BT2020
    Bt2020,
    /// SMPTE ST 431-2
    DciP3,
    /// SMPTE ST 432-1
    DisplayP3,
}

impl ColorPrimaries {
    /// Code point stored in the file for this variant.
    pub open spec fn spec_code(self) -> u16 {
        match self {
            ColorPrimaries::Bt709 => 1,
            ColorPrimaries::Unspecified => 2,
            ColorPrimaries::Bt601 => 6,
            ColorPrimaries::Bt2020 => 9,
            ColorPrimaries::DciP3 => 11,
            ColorPrimaries::DisplayP3 => 12,
        }
    }

    pub fn code(self) -> (r: u16)
        ensures
            r == self.spec_code(),
    {
        match self {
            ColorPrimaries::Bt709 => 1,
            ColorPrimaries::Unspecified => 2,
            ColorPrimaries::Bt601 => 6,
            ColorPrimaries::Bt2020 => 9,
            ColorPrimaries::DciP3 => 11,
            ColorPrimaries::DisplayP3 => 12,
        }
    }
}

#[derive(Debug, Copy, Clone, PartialEq, Eq, Structural)]
#[non_exhaustive]
pub enum TransferCharacteristics {
    /// ITU-R BT1361
    Bt709,
    Unspecified,
    /// BT.470 System M (historical)
    Bt470M,
    /// BT.470 System B, G (historical)
    Bt470BG,
    /// ITU-R BT601-6 525
    Bt601,
    /// SMPTE 240 M
    Smpte240,
    /// "Linear transfer characteristics"
    Linear,
    /// "Logarithmic transfer characteristic (100:1 range)"
    Log,
    /// "Logarithmic transfer characteristic (100 * Sqrt(10) : 1 range)"
    LogSqrt,
    /// IEC 61966-2-4
    Iec61966,
    /// BT.1361 extended color gamut system (historical)
    Bt1361,
    /// sRGB
    Srgb,
    /// ITU-R BT2020 for 10-bit system
    Bt2020_10,
    /// ITU-R BT2020 for 12-bit system
    Bt2020_12,
    /// SMPTE ST 2084, ITU BT.2100 PQ
    Smpte2084,
    /// SMPTE ST 428
    Smpte428,
    /// BT.2100 HLG (Hybrid Log Gamma), ARIB STD-B67
    Hlg,
}

impl TransferCharacteristics {
    /// Code point stored in the file for this variant.
    pub open spec fn spec_code(self) -> u16 {
        match self {
            TransferCharacteristics::Bt709 => 1,
            TransferCharacteristics::Unspecified => 2,
            TransferCharacteristics::Bt470M => 4,
            TransferCharacteristics::Bt470BG => 5,
            TransferCharacteristics::Bt601 => 6,
            TransferCharacteristics::Smpte240 => 7,
            TransferCharacteristics::Linear => 8,
            TransferCharacteristics::Log => 9,
            TransferCharacteristics::LogSqrt => 10,
            TransferCharacteristics::Iec61966 => 11,
            TransferCharacteristics::Bt1361 => 12,
            TransferCharacteristics::Srgb => 13,
            TransferCharacteristics::Bt2020_10 => 14,
            TransferCharacteristics::Bt2020_12 => 15,
            TransferCharacteristics::Smpte2084 => 16,
            TransferCharacteristics::Smpte428 => 17,
            TransferCharacteristics::Hlg => 18,
        }
    }

    pub fn code(self) -> (r: u16)
        ensures
            r == self.spec_code(),
    {
        match self {
            TransferCharacteristics::Bt709 => 1,
            TransferCharacteristics::Unspecified => 2,
            TransferCharacteristics::Bt470M => 4,
            TransferCharacteristics::Bt470BG => 5,
            TransferCharacteristics::Bt601 => 6,
            TransferCharacteristics::Smpte240 => 7,
            TransferCharacteristics::Linear => 8,
            TransferCharacteristics::Log => 9,
            TransferCharacteristics::LogSqrt => 10,
            TransferCharacteristics::Iec61966 => 11,
            TransferCharacteristics::Bt1361 => 12,
            TransferCharacteristics::Srgb => 13,
            TransferCharacteristics::Bt2020_10 => 14,
            TransferCharacteristics::Bt2020_12 => 15,
            TransferCharacteristics::Smpte2084 => 16,
            TransferCharacteristics::Smpte428 => 17,
            TransferCharacteristics::Hlg => 18,
        }
    }
}

#[derive(Debug, Copy, Clone, PartialEq, Eq, Structural)]
#[non_exhaustive]
pub enum MatrixCoefficients {
    /// GBR (sRGB)
    Rgb,
    /// ITU-R BT1361
    Bt709,
    Unspecified,
    /// ITU-R BT601-6 525
    Bt601,
    Ycgco,
    /// ITU-R BT2020 non-constant luminance system
    Bt2020Ncl,
    /// ITU-R BT2020 constant luminance system
    Bt2020Cl,
}

impl MatrixCoefficients {
    /// Code point stored in the file for this variant.
    pub open spec fn spec_code(self) -> u16 {
        match self {
            MatrixCoefficients::Rgb => 0,
            MatrixCoefficients::Bt709 => 1,
            MatrixCoefficients::Unspecified => 2,
            MatrixCoefficients::Bt601 => 6,
            MatrixCoefficients::Ycgco => 8,
            MatrixCoefficients::Bt2020Ncl => 9,
            MatrixCoefficients::Bt2020Cl => 10,
        }
    }

    pub fn code(self) -> (r: u16)
        ensures
            r == self.spec_code(),
    {
        match self {
            MatrixCoefficients::Rgb => 0,
            MatrixCoefficients::Bt709 => 1,
            MatrixCoefficients::Unspecified => 2,
            MatrixCoefficients::Bt601 => 6,
            MatrixCoefficients::Ycgco => 8,
            MatrixCoefficients::Bt2020Ncl => 9,
            MatrixCoefficients::Bt2020Cl => 10,
        }
    }
}

} // verus!
