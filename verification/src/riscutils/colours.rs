use vstd::prelude::*;

verus! {

/// Text colours. The background takes the low eight (0..7), the foreground all sixteen.
pub const BLACK: u8 = 0x0;

pub const BLUE: u8 = 0x1;

pub const GREEN: u8 = 0x2;

pub const CYAN: u8 = 0x3;

pub const RED: u8 = 0x4;

pub const MAGENTA: u8 = 0x5;

pub const BROWN: u8 = 0x6;

pub const LGREY: u8 = 0x7;

pub const DGREY: u8 = 0x8;

pub const LBLUE: u8 = 0x9;

pub const LIME: u8 = 0xa;

pub const LCYAN: u8 = 0xb;

pub const LRED: u8 = 0xc;

pub const PINK: u8 = 0xd;

pub const YELLOW: u8 = 0xe;

pub const WHITE: u8 = 0xf;

} // verus!
