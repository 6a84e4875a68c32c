//! The numbers of record types.
use vstd::prelude::*;

verus! {

pub const A: u16 = 1;

pub const NS: u16 = 2;

pub const CNAME: u16 = 5;

pub const SOA: u16 = 6;

pub const PTR: u16 = 12;

pub const MX: u16 = 15;

pub const TXT: u16 = 16;

pub const AAAA: u16 = 28;

pub const SRV: u16 = 33;

pub const RRSIG: u16 = 46;

pub const HTTPS: u16 = 65;

pub const CAA: u16 = 257;

pub const ANY: u16 = 255;

}
