//! Well-known information element IDs.
use vstd::prelude::*;

verus! {

pub const SSID: u8 = 0;

pub const SUPPORTED_RATES: u8 = 1;

pub const DS_PARAMETER_SET: u8 = 3;

pub const TIM: u8 = 5;

pub const COUNTRY: u8 = 7;

pub const RSN: u8 = 48;

pub const HT_CAPABILITIES: u8 = 45;

pub const HT_OPERATION: u8 = 61;

pub const VHT_CAPABILITIES: u8 = 191;

pub const VHT_OPERATION: u8 = 192;

pub const VENDOR_SPECIFIC: u8 = 221;

} // verus!
