//! Bit patterns of the doubles that the rules of the system name.
use vstd::prelude::*;

verus! {

/// The bit pattern of `0.00001`.
pub const D_0_00001: u64 = 0x3EE4_F8B5_88E3_68F1;

/// The bit pattern of `0.0001`.
pub const D_0_0001: u64 = 0x3F1A_36E2_EB1C_432D;

/// The bit pattern of `0.0005`.
pub const D_0_0005: u64 = 0x3F40_624D_D2F1_A9FC;

/// The bit pattern of `0.001`.
pub const D_0_001: u64 = 0x3F50_624D_D2F1_A9FC;

/// The bit pattern of `0.003`.
pub const D_0_003: u64 = 0x3F68_9374_BC6A_7EFA;

/// The bit pattern of `0.005`.
pub const D_0_005: u64 = 0x3F74_7AE1_47AE_147B;

/// The bit pattern of `0.01`.
pub const D_0_01: u64 = 0x3F84_7AE1_47AE_147B;

/// The bit pattern of `0.015`.
pub const D_0_015: u64 = 0x3F8E_B851_EB85_1EB8;

/// The bit pattern of `0.02`.
pub const D_0_02: u64 = 0x3F94_7AE1_47AE_147B;

/// The bit pattern of `0.025`.
pub const D_0_025: u64 = 0x3F99_9999_9999_999A;

/// The bit pattern of `0.05`.
pub const D_0_05: u64 = 0x3FA9_9999_9999_999A;

/// The bit pattern of `0.07`.
pub const D_0_07: u64 = 0x3FB1_EB85_1EB8_51EC;

/// The bit pattern of `0.1`.
pub const D_0_1: u64 = 0x3FB9_9999_9999_999A;

/// The bit pattern of `0.15`.
pub const D_0_15: u64 = 0x3FC3_3333_3333_3333;

/// The bit pattern of `0.2`.
pub const D_0_2: u64 = 0x3FC9_9999_9999_999A;

/// The bit pattern of `0.25`.
pub const D_0_25: u64 = 0x3FD0_0000_0000_0000;

/// The bit pattern of `0.35`.
pub const D_0_35: u64 = 0x3FD6_6666_6666_6666;

/// The bit pattern of `0.5`.
pub const D_0_5: u64 = 0x3FE0_0000_0000_0000;

/// The bit pattern of `0.75`.
pub const D_0_75: u64 = 0x3FE8_0000_0000_0000;

/// The bit pattern of `0.88`.
pub const D_0_88: u64 = 0x3FEC_28F5_C28F_5C29;

/// The bit pattern of `0.9`.
pub const D_0_9: u64 = 0x3FEC_CCCC_CCCC_CCCD;

/// The bit pattern of `0.93`.
pub const D_0_93: u64 = 0x3FED_C28F_5C28_F5C3;

/// The bit pattern of `0.99`.
pub const D_0_99: u64 = 0x3FEF_AE14_7AE1_47AE;

/// The bit pattern of `1.005`.
pub const D_1_005: u64 = 0x3FF0_147A_E147_AE14;

/// The bit pattern of `1.96`.
pub const D_1_96: u64 = 0x3FFF_5C28_F5C2_8F5C;

/// The bit pattern of `2.0`.
pub const D_2: u64 = 0x4000_0000_0000_0000;

/// The bit pattern of `5.0`.
pub const D_5: u64 = 0x4014_0000_0000_0000;

/// The bit pattern of `10.0`.
pub const D_10: u64 = 0x4024_0000_0000_0000;

/// The bit pattern of `12.0`.
pub const D_12: u64 = 0x4028_0000_0000_0000;

/// The bit pattern of `15.0`.
pub const D_15: u64 = 0x402E_0000_0000_0000;

/// The bit pattern of `20.0`.
pub const D_20: u64 = 0x4034_0000_0000_0000;

/// The bit pattern of `24.0`.
pub const D_24: u64 = 0x4038_0000_0000_0000;

/// The bit pattern of `25.0`.
pub const D_25: u64 = 0x4039_0000_0000_0000;

/// The bit pattern of `48.0`.
pub const D_48: u64 = 0x4048_0000_0000_0000;

/// The bit pattern of `50.0`.
pub const D_50: u64 = 0x4049_0000_0000_0000;

/// The bit pattern of `60.0`.
pub const D_60: u64 = 0x404E_0000_0000_0000;

/// The bit pattern of `99.0`.
pub const D_99: u64 = 0x4058_C000_0000_0000;

/// The bit pattern of `100.0`.
pub const D_100: u64 = 0x4059_0000_0000_0000;

/// The bit pattern of `168.0`.
pub const D_168: u64 = 0x4065_0000_0000_0000;

/// The bit pattern of `500.0`.
pub const D_500: u64 = 0x407F_4000_0000_0000;

/// The bit pattern of `3600.0`.
pub const D_3600: u64 = 0x40AC_2000_0000_0000;

/// The bit pattern of `10000.0`.
pub const D_10000: u64 = 0x40C3_8800_0000_0000;

} // verus!
