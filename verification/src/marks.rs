//! The marks that measurements are held against.
//!
//! A mark is the rank of a decimal fraction. It is named by the fraction's
//! hundredths, or by its thousandths where the name has four digits:
//! `AT_012` stands at 0.12 and `AT_0135` at 0.135.

use vstd::prelude::*;

verus! {

/// The rank of 0.005.
pub const AT_0005: i32 = 0x3ba3_d70a;

/// The rank of 0.035.
pub const AT_0035: i32 = 0x3d0f_5c29;

/// The rank of 0.04.
pub const AT_004: i32 = 0x3d23_d70a;

/// The rank of 0.05.
pub const AT_005: i32 = 0x3d4c_cccd;

/// The rank of 0.06.
pub const AT_006: i32 = 0x3d75_c28f;

/// The rank of 0.07.
pub const AT_007: i32 = 0x3d8f_5c29;

/// The rank of 0.08.
pub const AT_008: i32 = 0x3da3_d70a;

/// The rank of 0.10.
pub const AT_010: i32 = 0x3dcc_cccd;

/// The rank of 0.11.
pub const AT_011: i32 = 0x3de1_47ae;

/// The rank of 0.12.
pub const AT_012: i32 = 0x3df5_c28f;

/// The rank of 0.135.
pub const AT_0135: i32 = 0x3e0a_3d71;

/// The rank of 0.14.
pub const AT_014: i32 = 0x3e0f_5c29;

/// The rank of 0.145.
pub const AT_0145: i32 = 0x3e14_7ae1;

/// The rank of 0.15.
pub const AT_015: i32 = 0x3e19_999a;

/// The rank of 0.16.
pub const AT_016: i32 = 0x3e23_d70a;

/// The rank of 0.17.
pub const AT_017: i32 = 0x3e2e_147b;

/// The rank of 0.18.
pub const AT_018: i32 = 0x3e38_51ec;

/// The rank of 0.20.
pub const AT_020: i32 = 0x3e4c_cccd;

/// The rank of 0.22.
pub const AT_022: i32 = 0x3e61_47ae;

/// The rank of 0.24.
pub const AT_024: i32 = 0x3e75_c28f;

/// The rank of 0.25.
pub const AT_025: i32 = 0x3e80_0000;

/// The rank of 0.27.
pub const AT_027: i32 = 0x3e8a_3d71;

/// The rank of 0.28.
pub const AT_028: i32 = 0x3e8f_5c29;

/// The rank of 0.29.
pub const AT_029: i32 = 0x3e94_7ae1;

/// The rank of 0.30.
pub const AT_030: i32 = 0x3e99_999a;

/// The rank of 0.32.
pub const AT_032: i32 = 0x3ea3_d70a;

/// The rank of 0.34.
pub const AT_034: i32 = 0x3eae_147b;

/// The rank of 0.35.
pub const AT_035: i32 = 0x3eb3_3333;

/// The rank of 0.37.
pub const AT_037: i32 = 0x3ebd_70a4;

/// The rank of 0.38.
pub const AT_038: i32 = 0x3ec2_8f5c;

/// The rank of 0.40.
pub const AT_040: i32 = 0x3ecc_cccd;

/// The rank of 0.41.
pub const AT_041: i32 = 0x3ed1_eb85;

/// The rank of 0.42.
pub const AT_042: i32 = 0x3ed7_0a3d;

/// The rank of 0.44.
pub const AT_044: i32 = 0x3ee1_47ae;

/// The rank of 0.45.
pub const AT_045: i32 = 0x3ee6_6666;

/// The rank of 0.55.
pub const AT_055: i32 = 0x3f0c_cccd;

/// The rank of 0.59.
pub const AT_059: i32 = 0x3f17_0a3d;

/// The rank of 0.60.
pub const AT_060: i32 = 0x3f19_999a;

/// The rank of 0.62.
pub const AT_062: i32 = 0x3f1e_b852;

/// The rank of 0.65.
pub const AT_065: i32 = 0x3f26_6666;

/// The rank of 0.78.
pub const AT_078: i32 = 0x3f47_ae14;

/// The rank of 0.80.
pub const AT_080: i32 = 0x3f4c_cccd;

/// The rank of 0.85.
pub const AT_085: i32 = 0x3f59_999a;

/// The rank of 0.95.
pub const AT_095: i32 = 0x3f73_3333;

/// The rank of 0.99.
pub const AT_099: i32 = 0x3f7d_70a4;

/// The rank of 1.00.
pub const AT_100: i32 = 0x3f80_0000;

/// The rank of 1.05.
pub const AT_105: i32 = 0x3f86_6666;

/// The rank of 1.10.
pub const AT_110: i32 = 0x3f8c_cccd;

/// The rank of 1.25.
pub const AT_125: i32 = 0x3fa0_0000;

/// The rank of 1.35.
pub const AT_135: i32 = 0x3fac_cccd;

/// The rank of 1.45.
pub const AT_145: i32 = 0x3fb9_999a;

/// The rank of 1.50.
pub const AT_150: i32 = 0x3fc0_0000;

/// The rank of 1.67.
pub const AT_167: i32 = 0x3fd5_c28f;

/// The rank of 1.75.
pub const AT_175: i32 = 0x3fe0_0000;

/// The rank of 1.90.
pub const AT_190: i32 = 0x3ff3_3333;

/// The rank of 2.25.
pub const AT_225: i32 = 0x4010_0000;

/// The rank of 2.35.
pub const AT_235: i32 = 0x4016_6666;

/// The rank of 2.40.
pub const AT_240: i32 = 0x4019_999a;

/// The rank of 2.50.
pub const AT_250: i32 = 0x4020_0000;

/// The rank of 2.80.
pub const AT_280: i32 = 0x4033_3333;

/// The rank of 3.50.
pub const AT_350: i32 = 0x4060_0000;

/// The rank of 7.56.
pub const AT_756: i32 = 0x40f1_eb85;

/// Every mark is the rank of the single-precision number closest to the
/// fraction that names it.
pub proof fn marks_read_as_named()
    ensures
        crate::rank::reads(AT_0005 as int, 5, 1000),
        crate::rank::reads(AT_0035 as int, 35, 1000),
        crate::rank::reads(AT_004 as int, 4, 100),
        crate::rank::reads(AT_005 as int, 5, 100),
        crate::rank::reads(AT_006 as int, 6, 100),
        crate::rank::reads(AT_007 as int, 7, 100),
        crate::rank::reads(AT_008 as int, 8, 100),
        crate::rank::reads(AT_010 as int, 10, 100),
        crate::rank::reads(AT_011 as int, 11, 100),
        crate::rank::reads(AT_012 as int, 12, 100),
        crate::rank::reads(AT_0135 as int, 135, 1000),
        crate::rank::reads(AT_014 as int, 14, 100),
        crate::rank::reads(AT_0145 as int, 145, 1000),
        crate::rank::reads(AT_015 as int, 15, 100),
        crate::rank::reads(AT_016 as int, 16, 100),
        crate::rank::reads(AT_017 as int, 17, 100),
        crate::rank::reads(AT_018 as int, 18, 100),
        crate::rank::reads(AT_020 as int, 20, 100),
        crate::rank::reads(AT_022 as int, 22, 100),
        crate::rank::reads(AT_024 as int, 24, 100),
        crate::rank::reads(AT_025 as int, 25, 100),
        crate::rank::reads(AT_027 as int, 27, 100),
        crate::rank::reads(AT_028 as int, 28, 100),
        crate::rank::reads(AT_029 as int, 29, 100),
        crate::rank::reads(AT_030 as int, 30, 100),
        crate::rank::reads(AT_032 as int, 32, 100),
        crate::rank::reads(AT_034 as int, 34, 100),
        crate::rank::reads(AT_035 as int, 35, 100),
        crate::rank::reads(AT_037 as int, 37, 100),
        crate::rank::reads(AT_038 as int, 38, 100),
        crate::rank::reads(AT_040 as int, 40, 100),
        crate::rank::reads(AT_041 as int, 41, 100),
        crate::rank::reads(AT_042 as int, 42, 100),
        crate::rank::reads(AT_044 as int, 44, 100),
        crate::rank::reads(AT_045 as int, 45, 100),
        crate::rank::reads(AT_055 as int, 55, 100),
        crate::rank::reads(AT_059 as int, 59, 100),
        crate::rank::reads(AT_060 as int, 60, 100),
        crate::rank::reads(AT_062 as int, 62, 100),
        crate::rank::reads(AT_065 as int, 65, 100),
        crate::rank::reads(AT_078 as int, 78, 100),
        crate::rank::reads(AT_080 as int, 80, 100),
        crate::rank::reads(AT_085 as int, 85, 100),
        crate::rank::reads(AT_095 as int, 95, 100),
        crate::rank::reads(AT_099 as int, 99, 100),
        crate::rank::reads(AT_100 as int, 100, 100),
        crate::rank::reads(AT_105 as int, 105, 100),
        crate::rank::reads(AT_110 as int, 110, 100),
        crate::rank::reads(AT_125 as int, 125, 100),
        crate::rank::reads(AT_135 as int, 135, 100),
        crate::rank::reads(AT_145 as int, 145, 100),
        crate::rank::reads(AT_150 as int, 150, 100),
        crate::rank::reads(AT_167 as int, 167, 100),
        crate::rank::reads(AT_175 as int, 175, 100),
        crate::rank::reads(AT_190 as int, 190, 100),
        crate::rank::reads(AT_225 as int, 225, 100),
        crate::rank::reads(AT_235 as int, 235, 100),
        crate::rank::reads(AT_240 as int, 240, 100),
        crate::rank::reads(AT_250 as int, 250, 100),
        crate::rank::reads(AT_280 as int, 280, 100),
        crate::rank::reads(AT_350 as int, 350, 100),
        crate::rank::reads(AT_756 as int, 756, 100),
{
    vstd::arithmetic::power2::lemma2_to64();
}

} // verus!
