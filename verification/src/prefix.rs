//! The SI metric prefixes, as powers of ten.

use vstd::prelude::*;

verus! {

/// Quetta: ten to the thirtieth.
pub const QUETTA: i8 = 30;

/// Ronna: ten to the twenty-seventh.
pub const RONNA: i8 = 27;

/// Yotta: ten to the twenty-fourth.
pub const YOTTA: i8 = 24;

/// Zetta: ten to the twenty-first.
pub const ZETTA: i8 = 21;

/// Exa: ten to the eighteenth.
pub const EXA: i8 = 18;

/// Peta: ten to the fifteenth.
pub const PETA: i8 = 15;

/// Tera: ten to the twelfth.
pub const TERA: i8 = 12;

/// Giga: ten to the ninth.
pub const GIGA: i8 = 9;

/// Mega: ten to the sixth.
pub const MEGA: i8 = 6;

/// Kilo: ten to the third.
pub const KILO: i8 = 3;

/// Hecto: ten squared.
pub const HECTO: i8 = 2;

/// Deca: ten.
pub const DECA: i8 = 1;

/// The base prefix: ten to the zeroth, that is, no prefix.
pub const BASE: i8 = 0;

/// Deci: one tenth.
pub const DECI: i8 = -1;

/// Centi: one hundredth.
pub const CENTI: i8 = -2;

/// Milli: ten to the minus third.
pub const MILLI: i8 = -3;

/// Micro: ten to the minus sixth.
pub const MICRO: i8 = -6;

/// Nano: ten to the minus ninth.
pub const NANO: i8 = -9;

/// Pico: ten to the minus twelfth.
pub const PICO: i8 = -12;

/// Femto: ten to the minus fifteenth.
pub const FEMTO: i8 = -15;

/// Atto: ten to the minus eighteenth.
pub const ATTO: i8 = -18;

/// Zepto: ten to the minus twenty-first.
pub const ZEPTO: i8 = -21;

/// Yocto: ten to the minus twenty-fourth.
pub const YOCTO: i8 = -24;

/// Ronto: ten to the minus twenty-seventh.
pub const RONTO: i8 = -27;

/// Quecto: ten to the minus thirtieth.
pub const QUECTO: i8 = -30;

} // verus!
