//! The AES S-box and its inverse: the fixed nonlinear byte substitution
//! of FIPS-197 (multiplicative inverse in GF(2^8) followed by an affine
//! transformation), written out value by value.

use vstd::prelude::*;

verus! {

/// The S-box as a function of the input byte.
pub open spec fn sbox_spec(b: u8) -> u8 {
    if b == 0x00 { 0x63 }
    else if b == 0x01 { 0x7c }
    else if b == 0x02 { 0x77 }
    else if b == 0x03 { 0x7b }
    else if b == 0x04 { 0xf2 }
    else if b == 0x05 { 0x6b }
    else if b == 0x06 { 0x6f }
    else if b == 0x07 { 0xc5 }
    else if b == 0x08 { 0x30 }
    else if b == 0x09 { 0x01 }
    else if b == 0x0a { 0x67 }
    else if b == 0x0b { 0x2b }
    else if b == 0x0c { 0xfe }
    else if b == 0x0d { 0xd7 }
    else if b == 0x0e { 0xab }
    else if b == 0x0f { 0x76 }
    else if b == 0x10 { 0xca }
    else if b == 0x11 { 0x82 }
    else if b == 0x12 { 0xc9 }
    else if b == 0x13 { 0x7d }
    else if b == 0x14 { 0xfa }
    else if b == 0x15 { 0x59 }
    else if b == 0x16 { 0x47 }
    else if b == 0x17 { 0xf0 }
    else if b == 0x18 { 0xad }
    else if b == 0x19 { 0xd4 }
    else if b == 0x1a { 0xa2 }
    else if b == 0x1b { 0xaf }
    else if b == 0x1c { 0x9c }
    else if b == 0x1d { 0xa4 }
    else if b == 0x1e { 0x72 }
    else if b == 0x1f { 0xc0 }
    else if b == 0x20 { 0xb7 }
    else if b == 0x21 { 0xfd }
    else if b == 0x22 { 0x93 }
    else if b == 0x23 { 0x26 }
    else if b == 0x24 { 0x36 }
    else if b == 0x25 { 0x3f }
    else if b == 0x26 { 0xf7 }
    else if b == 0x27 { 0xcc }
    else if b == 0x28 { 0x34 }
    else if b == 0x29 { 0xa5 }
    else if b == 0x2a { 0xe5 }
    else if b == 0x2b { 0xf1 }
    else if b == 0x2c { 0x71 }
    else if b == 0x2d { 0xd8 }
    else if b == 0x2e { 0x31 }
    else if b == 0x2f { 0x15 }
    else if b == 0x30 { 0x04 }
    else if b == 0x31 { 0xc7 }
    else if b == 0x32 { 0x23 }
    else if b == 0x33 { 0xc3 }
    else if b == 0x34 { 0x18 }
    else if b == 0x35 { 0x96 }
    else if b == 0x36 { 0x05 }
    else if b == 0x37 { 0x9a }
    else if b == 0x38 { 0x07 }
    else if b == 0x39 { 0x12 }
    else if b == 0x3a { 0x80 }
    else if b == 0x3b { 0xe2 }
    else if b == 0x3c { 0xeb }
    else if b == 0x3d { 0x27 }
    else if b == 0x3e { 0xb2 }
    else if b == 0x3f { 0x75 }
    else if b == 0x40 { 0x09 }
    else if b == 0x41 { 0x83 }
    else if b == 0x42 { 0x2c }
    else if b == 0x43 { 0x1a }
    else if b == 0x44 { 0x1b }
    else if b == 0x45 { 0x6e }
    else if b == 0x46 { 0x5a }
    else if b == 0x47 { 0xa0 }
    else if b == 0x48 { 0x52 }
    else if b == 0x49 { 0x3b }
    else if b == 0x4a { 0xd6 }
    else if b == 0x4b { 0xb3 }
    else if b == 0x4c { 0x29 }
    else if b == 0x4d { 0xe3 }
    else if b == 0x4e { 0x2f }
    else if b == 0x4f { 0x84 }
    else if b == 0x50 { 0x53 }
    else if b == 0x51 { 0xd1 }
    else if b == 0x52 { 0x00 }
    else if b == 0x53 { 0xed }
    else if b == 0x54 { 0x20 }
    else if b == 0x55 { 0xfc }
    else if b == 0x56 { 0xb1 }
    else if b == 0x57 { 0x5b }
    else if b == 0x58 { 0x6a }
    else if b == 0x59 { 0xcb }
    else if b == 0x5a { 0xbe }
    else if b == 0x5b { 0x39 }
    else if b == 0x5c { 0x4a }
    else if b == 0x5d { 0x4c }
    else if b == 0x5e { 0x58 }
    else if b == 0x5f { 0xcf }
    else if b == 0x60 { 0xd0 }
    else if b == 0x61 { 0xef }
    else if b == 0x62 { 0xaa }
    else if b == 0x63 { 0xfb }
    else if b == 0x64 { 0x43 }
    else if b == 0x65 { 0x4d }
    else if b == 0x66 { 0x33 }
    else if b == 0x67 { 0x85 }
    else if b == 0x68 { 0x45 }
    else if b == 0x69 { 0xf9 }
    else if b == 0x6a { 0x02 }
    else if b == 0x6b { 0x7f }
    else if b == 0x6c { 0x50 }
    else if b == 0x6d { 0x3c }
    else if b == 0x6e { 0x9f }
    else if b == 0x6f { 0xa8 }
    else if b == 0x70 { 0x51 }
    else if b == 0x71 { 0xa3 }
    else if b == 0x72 { 0x40 }
    else if b == 0x73 { 0x8f }
    else if b == 0x74 { 0x92 }
    else if b == 0x75 { 0x9d }
    else if b == 0x76 { 0x38 }
    else if b == 0x77 { 0xf5 }
    else if b == 0x78 { 0xbc }
    else if b == 0x79 { 0xb6 }
    else if b == 0x7a { 0xda }
    else if b == 0x7b { 0x21 }
    else if b == 0x7c { 0x10 }
    else if b == 0x7d { 0xff }
    else if b == 0x7e { 0xf3 }
    else if b == 0x7f { 0xd2 }
    else if b == 0x80 { 0xcd }
    else if b == 0x81 { 0x0c }
    else if b == 0x82 { 0x13 }
    else if b == 0x83 { 0xec }
    else if b == 0x84 { 0x5f }
    else if b == 0x85 { 0x97 }
    else if b == 0x86 { 0x44 }
    else if b == 0x87 { 0x17 }
    else if b == 0x88 { 0xc4 }
    else if b == 0x89 { 0xa7 }
    else if b == 0x8a { 0x7e }
    else if b == 0x8b { 0x3d }
    else if b == 0x8c { 0x64 }
    else if b == 0x8d { 0x5d }
    else if b == 0x8e { 0x19 }
    else if b == 0x8f { 0x73 }
    else if b == 0x90 { 0x60 }
    else if b == 0x91 { 0x81 }
    else if b == 0x92 { 0x4f }
    else if b == 0x93 { 0xdc }
    else if b == 0x94 { 0x22 }
    else if b == 0x95 { 0x2a }
    else if b == 0x96 { 0x90 }
    else if b == 0x97 { 0x88 }
    else if b == 0x98 { 0x46 }
    else if b == 0x99 { 0xee }
    else if b == 0x9a { 0xb8 }
    else if b == 0x9b { 0x14 }
    else if b == 0x9c { 0xde }
    else if b == 0x9d { 0x5e }
    else if b == 0x9e { 0x0b }
    else if b == 0x9f { 0xdb }
    else if b == 0xa0 { 0xe0 }
    else if b == 0xa1 { 0x32 }
    else if b == 0xa2 { 0x3a }
    else if b == 0xa3 { 0x0a }
    else if b == 0xa4 { 0x49 }
    else if b == 0xa5 { 0x06 }
    else if b == 0xa6 { 0x24 }
    else if b == 0xa7 { 0x5c }
    else if b == 0xa8 { 0xc2 }
    else if b == 0xa9 { 0xd3 }
    else if b == 0xaa { 0xac }
    else if b == 0xab { 0x62 }
    else if b == 0xac { 0x91 }
    else if b == 0xad { 0x95 }
    else if b == 0xae { 0xe4 }
    else if b == 0xaf { 0x79 }
    else if b == 0xb0 { 0xe7 }
    else if b == 0xb1 { 0xc8 }
    else if b == 0xb2 { 0x37 }
    else if b == 0xb3 { 0x6d }
    else if b == 0xb4 { 0x8d }
    else if b == 0xb5 { 0xd5 }
    else if b == 0xb6 { 0x4e }
    else if b == 0xb7 { 0xa9 }
    else if b == 0xb8 { 0x6c }
    else if b == 0xb9 { 0x56 }
    else if b == 0xba { 0xf4 }
    else if b == 0xbb { 0xea }
    else if b == 0xbc { 0x65 }
    else if b == 0xbd { 0x7a }
    else if b == 0xbe { 0xae }
    else if b == 0xbf { 0x08 }
    else if b == 0xc0 { 0xba }
    else if b == 0xc1 { 0x78 }
    else if b == 0xc2 { 0x25 }
    else if b == 0xc3 { 0x2e }
    else if b == 0xc4 { 0x1c }
    else if b == 0xc5 { 0xa6 }
    else if b == 0xc6 { 0xb4 }
    else if b == 0xc7 { 0xc6 }
    else if b == 0xc8 { 0xe8 }
    else if b == 0xc9 { 0xdd }
    else if b == 0xca { 0x74 }
    else if b == 0xcb { 0x1f }
    else if b == 0xcc { 0x4b }
    else if b == 0xcd { 0xbd }
    else if b == 0xce { 0x8b }
    else if b == 0xcf { 0x8a }
    else if b == 0xd0 { 0x70 }
    else if b == 0xd1 { 0x3e }
    else if b == 0xd2 { 0xb5 }
    else if b == 0xd3 { 0x66 }
    else if b == 0xd4 { 0x48 }
    else if b == 0xd5 { 0x03 }
    else if b == 0xd6 { 0xf6 }
    else if b == 0xd7 { 0x0e }
    else if b == 0xd8 { 0x61 }
    else if b == 0xd9 { 0x35 }
    else if b == 0xda { 0x57 }
    else if b == 0xdb { 0xb9 }
    else if b == 0xdc { 0x86 }
    else if b == 0xdd { 0xc1 }
    else if b == 0xde { 0x1d }
    else if b == 0xdf { 0x9e }
    else if b == 0xe0 { 0xe1 }
    else if b == 0xe1 { 0xf8 }
    else if b == 0xe2 { 0x98 }
    else if b == 0xe3 { 0x11 }
    else if b == 0xe4 { 0x69 }
    else if b == 0xe5 { 0xd9 }
    else if b == 0xe6 { 0x8e }
    else if b == 0xe7 { 0x94 }
    else if b == 0xe8 { 0x9b }
    else if b == 0xe9 { 0x1e }
    else if b == 0xea { 0x87 }
    else if b == 0xeb { 0xe9 }
    else if b == 0xec { 0xce }
    else if b == 0xed { 0x55 }
    else if b == 0xee { 0x28 }
    else if b == 0xef { 0xdf }
    else if b == 0xf0 { 0x8c }
    else if b == 0xf1 { 0xa1 }
    else if b == 0xf2 { 0x89 }
    else if b == 0xf3 { 0x0d }
    else if b == 0xf4 { 0xbf }
    else if b == 0xf5 { 0xe6 }
    else if b == 0xf6 { 0x42 }
    else if b == 0xf7 { 0x68 }
    else if b == 0xf8 { 0x41 }
    else if b == 0xf9 { 0x99 }
    else if b == 0xfa { 0x2d }
    else if b == 0xfb { 0x0f }
    else if b == 0xfc { 0xb0 }
    else if b == 0xfd { 0x54 }
    else if b == 0xfe { 0xbb }
    else { 0x16 }
}

/// The inverse S-box as a function of the input byte.
pub open spec fn inv_sbox_spec(b: u8) -> u8 {
    if b == 0x00 { 0x52 }
    else if b == 0x01 { 0x09 }
    else if b == 0x02 { 0x6a }
    else if b == 0x03 { 0xd5 }
    else if b == 0x04 { 0x30 }
    else if b == 0x05 { 0x36 }
    else if b == 0x06 { 0xa5 }
    else if b == 0x07 { 0x38 }
    else if b == 0x08 { 0xbf }
    else if b == 0x09 { 0x40 }
    else if b == 0x0a { 0xa3 }
    else if b == 0x0b { 0x9e }
    else if b == 0x0c { 0x81 }
    else if b == 0x0d { 0xf3 }
    else if b == 0x0e { 0xd7 }
    else if b == 0x0f { 0xfb }
    else if b == 0x10 { 0x7c }
    else if b == 0x11 { 0xe3 }
    else if b == 0x12 { 0x39 }
    else if b == 0x13 { 0x82 }
    else if b == 0x14 { 0x9b }
    else if b == 0x15 { 0x2f }
    else if b == 0x16 { 0xff }
    else if b == 0x17 { 0x87 }
    else if b == 0x18 { 0x34 }
    else if b == 0x19 { 0x8e }
    else if b == 0x1a { 0x43 }
    else if b == 0x1b { 0x44 }
    else if b == 0x1c { 0xc4 }
    else if b == 0x1d { 0xde }
    else if b == 0x1e { 0xe9 }
    else if b == 0x1f { 0xcb }
    else if b == 0x20 { 0x54 }
    else if b == 0x21 { 0x7b }
    else if b == 0x22 { 0x94 }
    else if b == 0x23 { 0x32 }
    else if b == 0x24 { 0xa6 }
    else if b == 0x25 { 0xc2 }
    else if b == 0x26 { 0x23 }
    else if b == 0x27 { 0x3d }
    else if b == 0x28 { 0xee }
    else if b == 0x29 { 0x4c }
    else if b == 0x2a { 0x95 }
    else if b == 0x2b { 0x0b }
    else if b == 0x2c { 0x42 }
    else if b == 0x2d { 0xfa }
    else if b == 0x2e { 0xc3 }
    else if b == 0x2f { 0x4e }
    else if b == 0x30 { 0x08 }
    else if b == 0x31 { 0x2e }
    else if b == 0x32 { 0xa1 }
    else if b == 0x33 { 0x66 }
    else if b == 0x34 { 0x28 }
    else if b == 0x35 { 0xd9 }
    else if b == 0x36 { 0x24 }
    else if b == 0x37 { 0xb2 }
    else if b == 0x38 { 0x76 }
    else if b == 0x39 { 0x5b }
    else if b == 0x3a { 0xa2 }
    else if b == 0x3b { 0x49 }
    else if b == 0x3c { 0x6d }
    else if b == 0x3d { 0x8b }
    else if b == 0x3e { 0xd1 }
    else if b == 0x3f { 0x25 }
    else if b == 0x40 { 0x72 }
    else if b == 0x41 { 0xf8 }
    else if b == 0x42 { 0xf6 }
    else if b == 0x43 { 0x64 }
    else if b == 0x44 { 0x86 }
    else if b == 0x45 { 0x68 }
    else if b == 0x46 { 0x98 }
    else if b == 0x47 { 0x16 }
    else if b == 0x48 { 0xd4 }
    else if b == 0x49 { 0xa4 }
    else if b == 0x4a { 0x5c }
    else if b == 0x4b { 0xcc }
    else if b == 0x4c { 0x5d }
    else if b == 0x4d { 0x65 }
    else if b == 0x4e { 0xb6 }
    else if b == 0x4f { 0x92 }
    else if b == 0x50 { 0x6c }
    else if b == 0x51 { 0x70 }
    else if b == 0x52 { 0x48 }
    else if b == 0x53 { 0x50 }
    else if b == 0x54 { 0xfd }
    else if b == 0x55 { 0xed }
    else if b == 0x56 { 0xb9 }
    else if b == 0x57 { 0xda }
    else if b == 0x58 { 0x5e }
    else if b == 0x59 { 0x15 }
    else if b == 0x5a { 0x46 }
    else if b == 0x5b { 0x57 }
    else if b == 0x5c { 0xa7 }
    else if b == 0x5d { 0x8d }
    else if b == 0x5e { 0x9d }
    else if b == 0x5f { 0x84 }
    else if b == 0x60 { 0x90 }
    else if b == 0x61 { 0xd8 }
    else if b == 0x62 { 0xab }
    else if b == 0x63 { 0x00 }
    else if b == 0x64 { 0x8c }
    else if b == 0x65 { 0xbc }
    else if b == 0x66 { 0xd3 }
    else if b == 0x67 { 0x0a }
    else if b == 0x68 { 0xf7 }
    else if b == 0x69 { 0xe4 }
    else if b == 0x6a { 0x58 }
    else if b == 0x6b { 0x05 }
    else if b == 0x6c { 0xb8 }
    else if b == 0x6d { 0xb3 }
    else if b == 0x6e { 0x45 }
    else if b == 0x6f { 0x06 }
    else if b == 0x70 { 0xd0 }
    else if b == 0x71 { 0x2c }
    else if b == 0x72 { 0x1e }
    else if b == 0x73 { 0x8f }
    else if b == 0x74 { 0xca }
    else if b == 0x75 { 0x3f }
    else if b == 0x76 { 0x0f }
    else if b == 0x77 { 0x02 }
    else if b == 0x78 { 0xc1 }
    else if b == 0x79 { 0xaf }
    else if b == 0x7a { 0xbd }
    else if b == 0x7b { 0x03 }
    else if b == 0x7c { 0x01 }
    else if b == 0x7d { 0x13 }
    else if b == 0x7e { 0x8a }
    else if b == 0x7f { 0x6b }
    else if b == 0x80 { 0x3a }
    else if b == 0x81 { 0x91 }
    else if b == 0x82 { 0x11 }
    else if b == 0x83 { 0x41 }
    else if b == 0x84 { 0x4f }
    else if b == 0x85 { 0x67 }
    else if b == 0x86 { 0xdc }
    else if b == 0x87 { 0xea }
    else if b == 0x88 { 0x97 }
    else if b == 0x89 { 0xf2 }
    else if b == 0x8a { 0xcf }
    else if b == 0x8b { 0xce }
    else if b == 0x8c { 0xf0 }
    else if b == 0x8d { 0xb4 }
    else if b == 0x8e { 0xe6 }
    else if b == 0x8f { 0x73 }
    else if b == 0x90 { 0x96 }
    else if b == 0x91 { 0xac }
    else if b == 0x92 { 0x74 }
    else if b == 0x93 { 0x22 }
    else if b == 0x94 { 0xe7 }
    else if b == 0x95 { 0xad }
    else if b == 0x96 { 0x35 }
    else if b == 0x97 { 0x85 }
    else if b == 0x98 { 0xe2 }
    else if b == 0x99 { 0xf9 }
    else if b == 0x9a { 0x37 }
    else if b == 0x9b { 0xe8 }
    else if b == 0x9c { 0x1c }
    else if b == 0x9d { 0x75 }
    else if b == 0x9e { 0xdf }
    else if b == 0x9f { 0x6e }
    else if b == 0xa0 { 0x47 }
    else if b == 0xa1 { 0xf1 }
    else if b == 0xa2 { 0x1a }
    else if b == 0xa3 { 0x71 }
    else if b == 0xa4 { 0x1d }
    else if b == 0xa5 { 0x29 }
    else if b == 0xa6 { 0xc5 }
    else if b == 0xa7 { 0x89 }
    else if b == 0xa8 { 0x6f }
    else if b == 0xa9 { 0xb7 }
    else if b == 0xaa { 0x62 }
    else if b == 0xab { 0x0e }
    else if b == 0xac { 0xaa }
    else if b == 0xad { 0x18 }
    else if b == 0xae { 0xbe }
    else if b == 0xaf { 0x1b }
    else if b == 0xb0 { 0xfc }
    else if b == 0xb1 { 0x56 }
    else if b == 0xb2 { 0x3e }
    else if b == 0xb3 { 0x4b }
    else if b == 0xb4 { 0xc6 }
    else if b == 0xb5 { 0xd2 }
    else if b == 0xb6 { 0x79 }
    else if b == 0xb7 { 0x20 }
    else if b == 0xb8 { 0x9a }
    else if b == 0xb9 { 0xdb }
    else if b == 0xba { 0xc0 }
    else if b == 0xbb { 0xfe }
    else if b == 0xbc { 0x78 }
    else if b == 0xbd { 0xcd }
    else if b == 0xbe { 0x5a }
    else if b == 0xbf { 0xf4 }
    else if b == 0xc0 { 0x1f }
    else if b == 0xc1 { 0xdd }
    else if b == 0xc2 { 0xa8 }
    else if b == 0xc3 { 0x33 }
    else if b == 0xc4 { 0x88 }
    else if b == 0xc5 { 0x07 }
    else if b == 0xc6 { 0xc7 }
    else if b == 0xc7 { 0x31 }
    else if b == 0xc8 { 0xb1 }
    else if b == 0xc9 { 0x12 }
    else if b == 0xca { 0x10 }
    else if b == 0xcb { 0x59 }
    else if b == 0xcc { 0x27 }
    else if b == 0xcd { 0x80 }
    else if b == 0xce { 0xec }
    else if b == 0xcf { 0x5f }
    else if b == 0xd0 { 0x60 }
    else if b == 0xd1 { 0x51 }
    else if b == 0xd2 { 0x7f }
    else if b == 0xd3 { 0xa9 }
    else if b == 0xd4 { 0x19 }
    else if b == 0xd5 { 0xb5 }
    else if b == 0xd6 { 0x4a }
    else if b == 0xd7 { 0x0d }
    else if b == 0xd8 { 0x2d }
    else if b == 0xd9 { 0xe5 }
    else if b == 0xda { 0x7a }
    else if b == 0xdb { 0x9f }
    else if b == 0xdc { 0x93 }
    else if b == 0xdd { 0xc9 }
    else if b == 0xde { 0x9c }
    else if b == 0xdf { 0xef }
    else if b == 0xe0 { 0xa0 }
    else if b == 0xe1 { 0xe0 }
    else if b == 0xe2 { 0x3b }
    else if b == 0xe3 { 0x4d }
    else if b == 0xe4 { 0xae }
    else if b == 0xe5 { 0x2a }
    else if b == 0xe6 { 0xf5 }
    else if b == 0xe7 { 0xb0 }
    else if b == 0xe8 { 0xc8 }
    else if b == 0xe9 { 0xeb }
    else if b == 0xea { 0xbb }
    else if b == 0xeb { 0x3c }
    else if b == 0xec { 0x83 }
    else if b == 0xed { 0x53 }
    else if b == 0xee { 0x99 }
    else if b == 0xef { 0x61 }
    else if b == 0xf0 { 0x17 }
    else if b == 0xf1 { 0x2b }
    else if b == 0xf2 { 0x04 }
    else if b == 0xf3 { 0x7e }
    else if b == 0xf4 { 0xba }
    else if b == 0xf5 { 0x77 }
    else if b == 0xf6 { 0xd6 }
    else if b == 0xf7 { 0x26 }
    else if b == 0xf8 { 0xe1 }
    else if b == 0xf9 { 0x69 }
    else if b == 0xfa { 0x14 }
    else if b == 0xfb { 0x63 }
    else if b == 0xfc { 0x55 }
    else if b == 0xfd { 0x21 }
    else if b == 0xfe { 0x0c }
    else { 0x7d }
}

/// S-box lookup.
#[verifier::rlimit(100)]
pub fn sub_byte(b: u8) -> (r: u8)
    ensures
        r == sbox_spec(b),
{
    if b == 0x00 { 0x63 }
    else if b == 0x01 { 0x7c }
    else if b == 0x02 { 0x77 }
    else if b == 0x03 { 0x7b }
    else if b == 0x04 { 0xf2 }
    else if b == 0x05 { 0x6b }
    else if b == 0x06 { 0x6f }
    else if b == 0x07 { 0xc5 }
    else if b == 0x08 { 0x30 }
    else if b == 0x09 { 0x01 }
    else if b == 0x0a { 0x67 }
    else if b == 0x0b { 0x2b }
    else if b == 0x0c { 0xfe }
    else if b == 0x0d { 0xd7 }
    else if b == 0x0e { 0xab }
    else if b == 0x0f { 0x76 }
    else if b == 0x10 { 0xca }
    else if b == 0x11 { 0x82 }
    else if b == 0x12 { 0xc9 }
    else if b == 0x13 { 0x7d }
    else if b == 0x14 { 0xfa }
    else if b == 0x15 { 0x59 }
    else if b == 0x16 { 0x47 }
    else if b == 0x17 { 0xf0 }
    else if b == 0x18 { 0xad }
    else if b == 0x19 { 0xd4 }
    else if b == 0x1a { 0xa2 }
    else if b == 0x1b { 0xaf }
    else if b == 0x1c { 0x9c }
    else if b == 0x1d { 0xa4 }
    else if b == 0x1e { 0x72 }
    else if b == 0x1f { 0xc0 }
    else if b == 0x20 { 0xb7 }
    else if b == 0x21 { 0xfd }
    else if b == 0x22 { 0x93 }
    else if b == 0x23 { 0x26 }
    else if b == 0x24 { 0x36 }
    else if b == 0x25 { 0x3f }
    else if b == 0x26 { 0xf7 }
    else if b == 0x27 { 0xcc }
    else if b == 0x28 { 0x34 }
    else if b == 0x29 { 0xa5 }
    else if b == 0x2a { 0xe5 }
    else if b == 0x2b { 0xf1 }
    else if b == 0x2c { 0x71 }
    else if b == 0x2d { 0xd8 }
    else if b == 0x2e { 0x31 }
    else if b == 0x2f { 0x15 }
    else if b == 0x30 { 0x04 }
    else if b == 0x31 { 0xc7 }
    else if b == 0x32 { 0x23 }
    else if b == 0x33 { 0xc3 }
    else if b == 0x34 { 0x18 }
    else if b == 0x35 { 0x96 }
    else if b == 0x36 { 0x05 }
    else if b == 0x37 { 0x9a }
    else if b == 0x38 { 0x07 }
    else if b == 0x39 { 0x12 }
    else if b == 0x3a { 0x80 }
    else if b == 0x3b { 0xe2 }
    else if b == 0x3c { 0xeb }
    else if b == 0x3d { 0x27 }
    else if b == 0x3e { 0xb2 }
    else if b == 0x3f { 0x75 }
    else if b == 0x40 { 0x09 }
    else if b == 0x41 { 0x83 }
    else if b == 0x42 { 0x2c }
    else if b == 0x43 { 0x1a }
    else if b == 0x44 { 0x1b }
    else if b == 0x45 { 0x6e }
    else if b == 0x46 { 0x5a }
    else if b == 0x47 { 0xa0 }
    else if b == 0x48 { 0x52 }
    else if b == 0x49 { 0x3b }
    else if b == 0x4a { 0xd6 }
    else if b == 0x4b { 0xb3 }
    else if b == 0x4c { 0x29 }
    else if b == 0x4d { 0xe3 }
    else if b == 0x4e { 0x2f }
    else if b == 0x4f { 0x84 }
    else if b == 0x50 { 0x53 }
    else if b == 0x51 { 0xd1 }
    else if b == 0x52 { 0x00 }
    else if b == 0x53 { 0xed }
    else if b == 0x54 { 0x20 }
    else if b == 0x55 { 0xfc }
    else if b == 0x56 { 0xb1 }
    else if b == 0x57 { 0x5b }
    else if b == 0x58 { 0x6a }
    else if b == 0x59 { 0xcb }
    else if b == 0x5a { 0xbe }
    else if b == 0x5b { 0x39 }
    else if b == 0x5c { 0x4a }
    else if b == 0x5d { 0x4c }
    else if b == 0x5e { 0x58 }
    else if b == 0x5f { 0xcf }
    else if b == 0x60 { 0xd0 }
    else if b == 0x61 { 0xef }
    else if b == 0x62 { 0xaa }
    else if b == 0x63 { 0xfb }
    else if b == 0x64 { 0x43 }
    else if b == 0x65 { 0x4d }
    else if b == 0x66 { 0x33 }
    else if b == 0x67 { 0x85 }
    else if b == 0x68 { 0x45 }
    else if b == 0x69 { 0xf9 }
    else if b == 0x6a { 0x02 }
    else if b == 0x6b { 0x7f }
    else if b == 0x6c { 0x50 }
    else if b == 0x6d { 0x3c }
    else if b == 0x6e { 0x9f }
    else if b == 0x6f { 0xa8 }
    else if b == 0x70 { 0x51 }
    else if b == 0x71 { 0xa3 }
    else if b == 0x72 { 0x40 }
    else if b == 0x73 { 0x8f }
    else if b == 0x74 { 0x92 }
    else if b == 0x75 { 0x9d }
    else if b == 0x76 { 0x38 }
    else if b == 0x77 { 0xf5 }
    else if b == 0x78 { 0xbc }
    else if b == 0x79 { 0xb6 }
    else if b == 0x7a { 0xda }
    else if b == 0x7b { 0x21 }
    else if b == 0x7c { 0x10 }
    else if b == 0x7d { 0xff }
    else if b == 0x7e { 0xf3 }
    else if b == 0x7f { 0xd2 }
    else if b == 0x80 { 0xcd }
    else if b == 0x81 { 0x0c }
    else if b == 0x82 { 0x13 }
    else if b == 0x83 { 0xec }
    else if b == 0x84 { 0x5f }
    else if b == 0x85 { 0x97 }
    else if b == 0x86 { 0x44 }
    else if b == 0x87 { 0x17 }
    else if b == 0x88 { 0xc4 }
    else if b == 0x89 { 0xa7 }
    else if b == 0x8a { 0x7e }
    else if b == 0x8b { 0x3d }
    else if b == 0x8c { 0x64 }
    else if b == 0x8d { 0x5d }
    else if b == 0x8e { 0x19 }
    else if b == 0x8f { 0x73 }
    else if b == 0x90 { 0x60 }
    else if b == 0x91 { 0x81 }
    else if b == 0x92 { 0x4f }
    else if b == 0x93 { 0xdc }
    else if b == 0x94 { 0x22 }
    else if b == 0x95 { 0x2a }
    else if b == 0x96 { 0x90 }
    else if b == 0x97 { 0x88 }
    else if b == 0x98 { 0x46 }
    else if b == 0x99 { 0xee }
    else if b == 0x9a { 0xb8 }
    else if b == 0x9b { 0x14 }
    else if b == 0x9c { 0xde }
    else if b == 0x9d { 0x5e }
    else if b == 0x9e { 0x0b }
    else if b == 0x9f { 0xdb }
    else if b == 0xa0 { 0xe0 }
    else if b == 0xa1 { 0x32 }
    else if b == 0xa2 { 0x3a }
    else if b == 0xa3 { 0x0a }
    else if b == 0xa4 { 0x49 }
    else if b == 0xa5 { 0x06 }
    else if b == 0xa6 { 0x24 }
    else if b == 0xa7 { 0x5c }
    else if b == 0xa8 { 0xc2 }
    else if b == 0xa9 { 0xd3 }
    else if b == 0xaa { 0xac }
    else if b == 0xab { 0x62 }
    else if b == 0xac { 0x91 }
    else if b == 0xad { 0x95 }
    else if b == 0xae { 0xe4 }
    else if b == 0xaf { 0x79 }
    else if b == 0xb0 { 0xe7 }
    else if b == 0xb1 { 0xc8 }
    else if b == 0xb2 { 0x37 }
    else if b == 0xb3 { 0x6d }
    else if b == 0xb4 { 0x8d }
    else if b == 0xb5 { 0xd5 }
    else if b == 0xb6 { 0x4e }
    else if b == 0xb7 { 0xa9 }
    else if b == 0xb8 { 0x6c }
    else if b == 0xb9 { 0x56 }
    else if b == 0xba { 0xf4 }
    else if b == 0xbb { 0xea }
    else if b == 0xbc { 0x65 }
    else if b == 0xbd { 0x7a }
    else if b == 0xbe { 0xae }
    else if b == 0xbf { 0x08 }
    else if b == 0xc0 { 0xba }
    else if b == 0xc1 { 0x78 }
    else if b == 0xc2 { 0x25 }
    else if b == 0xc3 { 0x2e }
    else if b == 0xc4 { 0x1c }
    else if b == 0xc5 { 0xa6 }
    else if b == 0xc6 { 0xb4 }
    else if b == 0xc7 { 0xc6 }
    else if b == 0xc8 { 0xe8 }
    else if b == 0xc9 { 0xdd }
    else if b == 0xca { 0x74 }
    else if b == 0xcb { 0x1f }
    else if b == 0xcc { 0x4b }
    else if b == 0xcd { 0xbd }
    else if b == 0xce { 0x8b }
    else if b == 0xcf { 0x8a }
    else if b == 0xd0 { 0x70 }
    else if b == 0xd1 { 0x3e }
    else if b == 0xd2 { 0xb5 }
    else if b == 0xd3 { 0x66 }
    else if b == 0xd4 { 0x48 }
    else if b == 0xd5 { 0x03 }
    else if b == 0xd6 { 0xf6 }
    else if b == 0xd7 { 0x0e }
    else if b == 0xd8 { 0x61 }
    else if b == 0xd9 { 0x35 }
    else if b == 0xda { 0x57 }
    else if b == 0xdb { 0xb9 }
    else if b == 0xdc { 0x86 }
    else if b == 0xdd { 0xc1 }
    else if b == 0xde { 0x1d }
    else if b == 0xdf { 0x9e }
    else if b == 0xe0 { 0xe1 }
    else if b == 0xe1 { 0xf8 }
    else if b == 0xe2 { 0x98 }
    else if b == 0xe3 { 0x11 }
    else if b == 0xe4 { 0x69 }
    else if b == 0xe5 { 0xd9 }
    else if b == 0xe6 { 0x8e }
    else if b == 0xe7 { 0x94 }
    else if b == 0xe8 { 0x9b }
    else if b == 0xe9 { 0x1e }
    else if b == 0xea { 0x87 }
    else if b == 0xeb { 0xe9 }
    else if b == 0xec { 0xce }
    else if b == 0xed { 0x55 }
    else if b == 0xee { 0x28 }
    else if b == 0xef { 0xdf }
    else if b == 0xf0 { 0x8c }
    else if b == 0xf1 { 0xa1 }
    else if b == 0xf2 { 0x89 }
    else if b == 0xf3 { 0x0d }
    else if b == 0xf4 { 0xbf }
    else if b == 0xf5 { 0xe6 }
    else if b == 0xf6 { 0x42 }
    else if b == 0xf7 { 0x68 }
    else if b == 0xf8 { 0x41 }
    else if b == 0xf9 { 0x99 }
    else if b == 0xfa { 0x2d }
    else if b == 0xfb { 0x0f }
    else if b == 0xfc { 0xb0 }
    else if b == 0xfd { 0x54 }
    else if b == 0xfe { 0xbb }
    else { 0x16 }
}

/// Inverse S-box lookup.
#[verifier::rlimit(100)]
pub fn inv_sub_byte(b: u8) -> (r: u8)
    ensures
        r == inv_sbox_spec(b),
{
    if b == 0x00 { 0x52 }
    else if b == 0x01 { 0x09 }
    else if b == 0x02 { 0x6a }
    else if b == 0x03 { 0xd5 }
    else if b == 0x04 { 0x30 }
    else if b == 0x05 { 0x36 }
    else if b == 0x06 { 0xa5 }
    else if b == 0x07 { 0x38 }
    else if b == 0x08 { 0xbf }
    else if b == 0x09 { 0x40 }
    else if b == 0x0a { 0xa3 }
    else if b == 0x0b { 0x9e }
    else if b == 0x0c { 0x81 }
    else if b == 0x0d { 0xf3 }
    else if b == 0x0e { 0xd7 }
    else if b == 0x0f { 0xfb }
    else if b == 0x10 { 0x7c }
    else if b == 0x11 { 0xe3 }
    else if b == 0x12 { 0x39 }
    else if b == 0x13 { 0x82 }
    else if b == 0x14 { 0x9b }
    else if b == 0x15 { 0x2f }
    else if b == 0x16 { 0xff }
    else if b == 0x17 { 0x87 }
    else if b == 0x18 { 0x34 }
    else if b == 0x19 { 0x8e }
    else if b == 0x1a { 0x43 }
    else if b == 0x1b { 0x44 }
    else if b == 0x1c { 0xc4 }
    else if b == 0x1d { 0xde }
    else if b == 0x1e { 0xe9 }
    else if b == 0x1f { 0xcb }
    else if b == 0x20 { 0x54 }
    else if b == 0x21 { 0x7b }
    else if b == 0x22 { 0x94 }
    else if b == 0x23 { 0x32 }
    else if b == 0x24 { 0xa6 }
    else if b == 0x25 { 0xc2 }
    else if b == 0x26 { 0x23 }
    else if b == 0x27 { 0x3d }
    else if b == 0x28 { 0xee }
    else if b == 0x29 { 0x4c }
    else if b == 0x2a { 0x95 }
    else if b == 0x2b { 0x0b }
    else if b == 0x2c { 0x42 }
    else if b == 0x2d { 0xfa }
    else if b == 0x2e { 0xc3 }
    else if b == 0x2f { 0x4e }
    else if b == 0x30 { 0x08 }
    else if b == 0x31 { 0x2e }
    else if b == 0x32 { 0xa1 }
    else if b == 0x33 { 0x66 }
    else if b == 0x34 { 0x28 }
    else if b == 0x35 { 0xd9 }
    else if b == 0x36 { 0x24 }
    else if b == 0x37 { 0xb2 }
    else if b == 0x38 { 0x76 }
    else if b == 0x39 { 0x5b }
    else if b == 0x3a { 0xa2 }
    else if b == 0x3b { 0x49 }
    else if b == 0x3c { 0x6d }
    else if b == 0x3d { 0x8b }
    else if b == 0x3e { 0xd1 }
    else if b == 0x3f { 0x25 }
    else if b == 0x40 { 0x72 }
    else if b == 0x41 { 0xf8 }
    else if b == 0x42 { 0xf6 }
    else if b == 0x43 { 0x64 }
    else if b == 0x44 { 0x86 }
    else if b == 0x45 { 0x68 }
    else if b == 0x46 { 0x98 }
    else if b == 0x47 { 0x16 }
    else if b == 0x48 { 0xd4 }
    else if b == 0x49 { 0xa4 }
    else if b == 0x4a { 0x5c }
    else if b == 0x4b { 0xcc }
    else if b == 0x4c { 0x5d }
    else if b == 0x4d { 0x65 }
    else if b == 0x4e { 0xb6 }
    else if b == 0x4f { 0x92 }
    else if b == 0x50 { 0x6c }
    else if b == 0x51 { 0x70 }
    else if b == 0x52 { 0x48 }
    else if b == 0x53 { 0x50 }
    else if b == 0x54 { 0xfd }
    else if b == 0x55 { 0xed }
    else if b == 0x56 { 0xb9 }
    else if b == 0x57 { 0xda }
    else if b == 0x58 { 0x5e }
    else if b == 0x59 { 0x15 }
    else if b == 0x5a { 0x46 }
    else if b == 0x5b { 0x57 }
    else if b == 0x5c { 0xa7 }
    else if b == 0x5d { 0x8d }
    else if b == 0x5e { 0x9d }
    else if b == 0x5f { 0x84 }
    else if b == 0x60 { 0x90 }
    else if b == 0x61 { 0xd8 }
    else if b == 0x62 { 0xab }
    else if b == 0x63 { 0x00 }
    else if b == 0x64 { 0x8c }
    else if b == 0x65 { 0xbc }
    else if b == 0x66 { 0xd3 }
    else if b == 0x67 { 0x0a }
    else if b == 0x68 { 0xf7 }
    else if b == 0x69 { 0xe4 }
    else if b == 0x6a { 0x58 }
    else if b == 0x6b { 0x05 }
    else if b == 0x6c { 0xb8 }
    else if b == 0x6d { 0xb3 }
    else if b == 0x6e { 0x45 }
    else if b == 0x6f { 0x06 }
    else if b == 0x70 { 0xd0 }
    else if b == 0x71 { 0x2c }
    else if b == 0x72 { 0x1e }
    else if b == 0x73 { 0x8f }
    else if b == 0x74 { 0xca }
    else if b == 0x75 { 0x3f }
    else if b == 0x76 { 0x0f }
    else if b == 0x77 { 0x02 }
    else if b == 0x78 { 0xc1 }
    else if b == 0x79 { 0xaf }
    else if b == 0x7a { 0xbd }
    else if b == 0x7b { 0x03 }
    else if b == 0x7c { 0x01 }
    else if b == 0x7d { 0x13 }
    else if b == 0x7e { 0x8a }
    else if b == 0x7f { 0x6b }
    else if b == 0x80 { 0x3a }
    else if b == 0x81 { 0x91 }
    else if b == 0x82 { 0x11 }
    else if b == 0x83 { 0x41 }
    else if b == 0x84 { 0x4f }
    else if b == 0x85 { 0x67 }
    else if b == 0x86 { 0xdc }
    else if b == 0x87 { 0xea }
    else if b == 0x88 { 0x97 }
    else if b == 0x89 { 0xf2 }
    else if b == 0x8a { 0xcf }
    else if b == 0x8b { 0xce }
    else if b == 0x8c { 0xf0 }
    else if b == 0x8d { 0xb4 }
    else if b == 0x8e { 0xe6 }
    else if b == 0x8f { 0x73 }
    else if b == 0x90 { 0x96 }
    else if b == 0x91 { 0xac }
    else if b == 0x92 { 0x74 }
    else if b == 0x93 { 0x22 }
    else if b == 0x94 { 0xe7 }
    else if b == 0x95 { 0xad }
    else if b == 0x96 { 0x35 }
    else if b == 0x97 { 0x85 }
    else if b == 0x98 { 0xe2 }
    else if b == 0x99 { 0xf9 }
    else if b == 0x9a { 0x37 }
    else if b == 0x9b { 0xe8 }
    else if b == 0x9c { 0x1c }
    else if b == 0x9d { 0x75 }
    else if b == 0x9e { 0xdf }
    else if b == 0x9f { 0x6e }
    else if b == 0xa0 { 0x47 }
    else if b == 0xa1 { 0xf1 }
    else if b == 0xa2 { 0x1a }
    else if b == 0xa3 { 0x71 }
    else if b == 0xa4 { 0x1d }
    else if b == 0xa5 { 0x29 }
    else if b == 0xa6 { 0xc5 }
    else if b == 0xa7 { 0x89 }
    else if b == 0xa8 { 0x6f }
    else if b == 0xa9 { 0xb7 }
    else if b == 0xaa { 0x62 }
    else if b == 0xab { 0x0e }
    else if b == 0xac { 0xaa }
    else if b == 0xad { 0x18 }
    else if b == 0xae { 0xbe }
    else if b == 0xaf { 0x1b }
    else if b == 0xb0 { 0xfc }
    else if b == 0xb1 { 0x56 }
    else if b == 0xb2 { 0x3e }
    else if b == 0xb3 { 0x4b }
    else if b == 0xb4 { 0xc6 }
    else if b == 0xb5 { 0xd2 }
    else if b == 0xb6 { 0x79 }
    else if b == 0xb7 { 0x20 }
    else if b == 0xb8 { 0x9a }
    else if b == 0xb9 { 0xdb }
    else if b == 0xba { 0xc0 }
    else if b == 0xbb { 0xfe }
    else if b == 0xbc { 0x78 }
    else if b == 0xbd { 0xcd }
    else if b == 0xbe { 0x5a }
    else if b == 0xbf { 0xf4 }
    else if b == 0xc0 { 0x1f }
    else if b == 0xc1 { 0xdd }
    else if b == 0xc2 { 0xa8 }
    else if b == 0xc3 { 0x33 }
    else if b == 0xc4 { 0x88 }
    else if b == 0xc5 { 0x07 }
    else if b == 0xc6 { 0xc7 }
    else if b == 0xc7 { 0x31 }
    else if b == 0xc8 { 0xb1 }
    else if b == 0xc9 { 0x12 }
    else if b == 0xca { 0x10 }
    else if b == 0xcb { 0x59 }
    else if b == 0xcc { 0x27 }
    else if b == 0xcd { 0x80 }
    else if b == 0xce { 0xec }
    else if b == 0xcf { 0x5f }
    else if b == 0xd0 { 0x60 }
    else if b == 0xd1 { 0x51 }
    else if b == 0xd2 { 0x7f }
    else if b == 0xd3 { 0xa9 }
    else if b == 0xd4 { 0x19 }
    else if b == 0xd5 { 0xb5 }
    else if b == 0xd6 { 0x4a }
    else if b == 0xd7 { 0x0d }
    else if b == 0xd8 { 0x2d }
    else if b == 0xd9 { 0xe5 }
    else if b == 0xda { 0x7a }
    else if b == 0xdb { 0x9f }
    else if b == 0xdc { 0x93 }
    else if b == 0xdd { 0xc9 }
    else if b == 0xde { 0x9c }
    else if b == 0xdf { 0xef }
    else if b == 0xe0 { 0xa0 }
    else if b == 0xe1 { 0xe0 }
    else if b == 0xe2 { 0x3b }
    else if b == 0xe3 { 0x4d }
    else if b == 0xe4 { 0xae }
    else if b == 0xe5 { 0x2a }
    else if b == 0xe6 { 0xf5 }
    else if b == 0xe7 { 0xb0 }
    else if b == 0xe8 { 0xc8 }
    else if b == 0xe9 { 0xeb }
    else if b == 0xea { 0xbb }
    else if b == 0xeb { 0x3c }
    else if b == 0xec { 0x83 }
    else if b == 0xed { 0x53 }
    else if b == 0xee { 0x99 }
    else if b == 0xef { 0x61 }
    else if b == 0xf0 { 0x17 }
    else if b == 0xf1 { 0x2b }
    else if b == 0xf2 { 0x04 }
    else if b == 0xf3 { 0x7e }
    else if b == 0xf4 { 0xba }
    else if b == 0xf5 { 0x77 }
    else if b == 0xf6 { 0xd6 }
    else if b == 0xf7 { 0x26 }
    else if b == 0xf8 { 0xe1 }
    else if b == 0xf9 { 0x69 }
    else if b == 0xfa { 0x14 }
    else if b == 0xfb { 0x63 }
    else if b == 0xfc { 0x55 }
    else if b == 0xfd { 0x21 }
    else if b == 0xfe { 0x0c }
    else { 0x7d }
}

/// The inverse S-box undoes the S-box on every byte.
#[verifier::rlimit(100)]
#[verifier::spinoff_prover]
pub proof fn lemma_sbox_inverse(b: u8)
    by (bit_vector)
    ensures
        inv_sbox_spec(sbox_spec(b)) == b,
{
}

/// The S-box undoes the inverse S-box on every byte.
#[verifier::rlimit(100)]
#[verifier::spinoff_prover]
pub proof fn lemma_inv_sbox_inverse(b: u8)
    by (bit_vector)
    ensures
        sbox_spec(inv_sbox_spec(b)) == b,
{
}

} // verus!
