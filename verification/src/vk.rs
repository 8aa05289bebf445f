//! Verifying key for the withdrawal circuit.
//!
//! Fixed elliptic-curve constants from an offline trusted setup matching
//! the proving circuit; baked in at deployment, never recomputed at
//! runtime. All points are big-endian alt_bn128 encodings.

use vstd::prelude::*;

verus! {

/// Alpha * G1 (64 bytes)
pub const ALPHA_G1: [u8; 64] = [
    45, 77, 154, 167, 227, 2, 217, 223, 65, 116, 157, 85, 7, 148, 157, 5,
    219, 234, 51, 251, 177, 108, 100, 59, 34, 245, 153, 162, 190, 109, 242, 226,
    20, 190, 221, 80, 60, 55, 206, 176, 97, 216, 236, 96, 32, 159, 227, 69,
    206, 137, 131, 10, 25, 35, 3, 1, 240, 118, 202, 255, 0, 77, 25, 38,
];

/// Beta * G2 (128 bytes)
pub const BETA_G2: [u8; 128] = [
    9, 103, 3, 47, 203, 247, 118, 209, 175, 201, 133, 248, 136, 119, 241, 130,
    211, 132, 128, 166, 83, 242, 222, 202, 169, 121, 76, 188, 59, 243, 6, 12,
    14, 24, 120, 71, 173, 76, 121, 131, 116, 208, 214, 115, 43, 245, 1, 132,
    125, 214, 139, 192, 224, 113, 36, 30, 2, 19, 188, 127, 193, 61, 183, 171,
    48, 76, 251, 209, 224, 138, 112, 74, 153, 245, 232, 71, 217, 63, 140, 60,
    170, 253, 222, 196, 107, 122, 13, 55, 157, 166, 154, 77, 17, 35, 70, 167,
    23, 57, 193, 177, 164, 87, 168, 199, 49, 49, 35, 210, 77, 47, 145, 146,
    248, 150, 183, 198, 62, 234, 5, 169, 213, 127, 6, 84, 122, 208, 206, 200,
];

/// Gamma * G2 (128 bytes)
pub const GAMMA_G2: [u8; 128] = [
    25, 142, 147, 147, 146, 13, 72, 58, 114, 96, 191, 183, 49, 251, 93, 37,
    241, 170, 73, 51, 53, 169, 231, 18, 151, 228, 133, 183, 174, 243, 18, 194,
    24, 0, 222, 239, 18, 31, 30, 118, 66, 106, 0, 102, 94, 92, 68, 121,
    103, 67, 34, 212, 247, 94, 218, 221, 70, 222, 189, 92, 217, 146, 246, 237,
    9, 6, 137, 208, 88, 95, 240, 117, 236, 158, 153, 173, 105, 12, 51, 149,
    188, 75, 49, 51, 112, 179, 142, 243, 85, 172, 218, 220, 209, 34, 151, 91,
    18, 200, 94, 165, 219, 140, 109, 235, 74, 171, 113, 128, 141, 203, 64, 143,
    227, 209, 231, 105, 12, 67, 211, 123, 76, 230, 204, 1, 102, 250, 125, 170,
];

/// Delta * G2 (128 bytes)
pub const DELTA_G2: [u8; 128] = [
    27, 213, 67, 252, 247, 253, 12, 198, 174, 104, 181, 173, 62, 190, 44, 28,
    162, 140, 4, 170, 136, 35, 149, 233, 139, 84, 168, 159, 240, 55, 246, 2,
    0, 114, 158, 132, 24, 0, 86, 11, 108, 248, 236, 155, 238, 8, 214, 106,
    86, 12, 44, 47, 118, 204, 254, 148, 246, 10, 78, 170, 50, 196, 180, 178,
    40, 243, 152, 201, 44, 112, 167, 205, 67, 97, 21, 22, 30, 147, 76, 59,
    184, 95, 76, 6, 115, 30, 17, 6, 92, 97, 36, 196, 88, 110, 78, 143,
    14, 5, 41, 127, 123, 22, 88, 42, 19, 185, 238, 174, 200, 98, 163, 193,
    213, 33, 233, 121, 195, 232, 14, 54, 182, 130, 229, 234, 230, 119, 206, 144,
];

/// IC elements (one for capacity + one per public input)
/// For 4 public inputs: 5 * 64 = 320 bytes
pub const IC: [[u8; 64]; 5] = [
    [
        26, 142, 152, 19, 66, 57, 188, 60, 34, 220, 171, 234, 136, 120, 58, 87,
        27, 236, 38, 11, 148, 1, 122, 116, 83, 40, 27, 198, 30, 54, 168, 62,
        35, 130, 46, 108, 168, 176, 91, 68, 85, 104, 201, 113, 16, 189, 135, 232,
        28, 172, 213, 51, 132, 227, 156, 58, 173, 87, 36, 26, 47, 225, 146, 93,
    ],
    [
        15, 253, 160, 19, 152, 146, 157, 102, 152, 248, 53, 102, 115, 88, 84, 109,
        115, 237, 129, 54, 210, 109, 137, 187, 92, 114, 210, 158, 154, 104, 64, 73,
        2, 250, 1, 144, 41, 188, 35, 29, 14, 248, 67, 69, 195, 127, 127, 210,
        238, 188, 134, 170, 253, 148, 210, 232, 59, 122, 74, 72, 223, 21, 33, 233,
    ],
    [
        6, 155, 8, 29, 35, 187, 248, 28, 58, 121, 66, 72, 75, 50, 63, 123,
        51, 230, 245, 90, 97, 46, 43, 38, 233, 216, 223, 95, 221, 147, 59, 83,
        31, 61, 174, 213, 231, 195, 169, 113, 71, 167, 35, 151, 0, 1, 67, 247,
        205, 142, 89, 205, 89, 22, 103, 62, 227, 194, 122, 160, 202, 68, 55, 239,
    ],
    [
        13, 179, 84, 210, 21, 56, 245, 180, 101, 38, 71, 143, 51, 137, 197, 243,
        143, 140, 28, 150, 200, 248, 253, 120, 13, 149, 255, 8, 255, 48, 170, 93,
        24, 201, 115, 240, 91, 246, 81, 111, 190, 178, 120, 200, 222, 147, 25, 180,
        254, 83, 219, 130, 66, 220, 110, 44, 25, 175, 88, 63, 125, 138, 18, 114,
    ],
    [
        40, 26, 185, 76, 3, 233, 141, 133, 105, 161, 113, 127, 202, 223, 131, 133,
        243, 251, 234, 16, 172, 210, 236, 17, 75, 103, 174, 124, 58, 149, 242, 120,
        44, 210, 194, 184, 196, 153, 3, 62, 174, 167, 232, 182, 83, 82, 197, 126,
        123, 114, 190, 206, 51, 237, 194, 113, 118, 176, 169, 237, 197, 118, 229, 202,
    ],
];

} // verus!
