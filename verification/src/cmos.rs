//! Decoding the real-time clock's register sample.
//!
//! Polling the clock's registers until a stable sample is read is plain
//! port input and stays at the boundary; what is verified here is what the
//! kernel computes from a sample: binary values from BCD-coded registers,
//! a 24-hour clock from a 12-hour one, and the full four-digit year.

use vstd::prelude::*;

verus! {

/// How the full year is determined: from the clock's century register, or
/// from a supplied current year as a backup.
#[derive(Debug, Clone, Copy)]
pub enum CMOSCenturyHandler {
    CenturyRegister(u8),
    CurrentYear(usize),
}

/// A calendar timestamp read from the real-time clock.
#[derive(Debug, Clone, Copy, PartialEq, Eq, Structural)]
pub struct RTCDateTime {
    pub second: u8,
    pub minute: u8,
    pub hour: u8,
    pub day: u8,
    pub month: u8,
    pub year: usize,
}

/// One stable register sample, as the polling reader hands it over: the
/// six time registers, the century register (zero when unused), and status
/// register B, whose bits say how the sample is coded.
#[derive(Debug, Clone, Copy, PartialEq, Eq, Structural)]
pub struct RtcSample {
    pub second: u8,
    pub minute: u8,
    pub hour: u8,
    pub day: u8,
    pub month: u8,
    pub year: u8,
    pub century: u8,
    pub register_b: u8,
}

/// Status register B: values are binary-coded decimal unless bit 2 is set.
pub open spec fn bcd_coded(register_b: u8) -> bool {
    register_b & 0x04 == 0
}

/// Status register B: the hour register counts a 12-hour clock, with the
/// high bit as the afternoon flag, unless bit 1 is set.
pub open spec fn twelve_hour_clock(register_b: u8) -> bool {
    register_b & 0x02 == 0
}

/// Binary value of a BCD-coded byte: the low nibble is the ones digit, the
/// high nibble the tens digit.
pub open spec fn spec_bcd(v: u8) -> int {
    (v & 0x0F) + (v as int / 16) * 10
}

/// Binary value of a BCD-coded hour register: as `spec_bcd`, but the high
/// bit is the afternoon flag of a 12-hour clock and is carried through
/// untouched.
pub open spec fn spec_bcd_hour(v: u8) -> u8 {
    (((v & 0x0F) + ((v & 0x70) as int / 16) * 10) as u8) | (v & 0x80)
}

/// Binary value of a BCD-coded byte.
pub fn bcd_to_binary(v: u8) -> (b: u8)
    ensures
        b as int == spec_bcd(v),
        b <= 165,
{
    proof {
        assert(v & 0x0F <= 15) by (bit_vector);
    }
    (v & 0x0F) + (v / 16) * 10
}

/// Binary value of a BCD-coded hour register, afternoon flag kept.
pub fn bcd_hour_to_binary(v: u8) -> (b: u8)
    ensures
        b == spec_bcd_hour(v),
{
    proof {
        assert(v & 0x0F <= 15 && (v & 0x70) / 16 <= 7) by (bit_vector);
    }
    ((v & 0x0F) + ((v & 0x70) / 16) * 10) | (v & 0x80)
}

/// An hour of a 12-hour clock as a 24-hour value: the high bit flags the
/// afternoon, and midnight and noon wrap.
pub open spec fn spec_hour24(hour: u8) -> int {
    ((hour & 0x7F) + 12) % 24
}

/// Decode one stable register sample into a calendar timestamp: BCD
/// registers become binary when status register B says the sample is
/// BCD-coded, a 12-hour clock becomes a 24-hour one, and the year gains
/// its century — from the century register, or from the supplied current
/// year, rounded to the century and bumped when the clock's year has
/// already wrapped past it.
pub fn decode_rtc(sample: RtcSample, century_handler: CMOSCenturyHandler) -> (r: RTCDateTime)
    requires
        match century_handler {
            CMOSCenturyHandler::CurrentYear(y) => y <= usize::MAX - 355,
            CMOSCenturyHandler::CenturyRegister(_) => true,
        },
    ensures
        r.second as int == (if bcd_coded(sample.register_b) {
            spec_bcd(sample.second)
        } else {
            sample.second as int
        }),
        r.minute as int == (if bcd_coded(sample.register_b) {
            spec_bcd(sample.minute)
        } else {
            sample.minute as int
        }),
        r.day as int == (if bcd_coded(sample.register_b) {
            spec_bcd(sample.day)
        } else {
            sample.day as int
        }),
        r.month as int == (if bcd_coded(sample.register_b) {
            spec_bcd(sample.month)
        } else {
            sample.month as int
        }),
        // the hour is BCD-decoded with its afternoon flag kept, then
        // converted to the 24-hour clock when the flag is set
        ({
            let h = if bcd_coded(sample.register_b) {
                spec_bcd_hour(sample.hour)
            } else {
                sample.hour
            };
            r.hour as int == (if twelve_hour_clock(sample.register_b) && h & 0x80 != 0 {
                spec_hour24(h)
            } else {
                h as int
            })
        }),
        // the year is completed to four digits
        ({
            let y = if bcd_coded(sample.register_b) {
                spec_bcd(sample.year)
            } else {
                sample.year as int
            };
            r.year as int == (match century_handler {
                CMOSCenturyHandler::CenturyRegister(_) => {
                    let c = if bcd_coded(sample.register_b) {
                        spec_bcd(sample.century)
                    } else {
                        sample.century as int
                    };
                    y + c * 100
                },
                CMOSCenturyHandler::CurrentYear(current) => {
                    let rounded = y + (current as int / 100) * 100;
                    if rounded < current {
                        rounded + 100
                    } else {
                        rounded
                    }
                },
            })
        }),
{
    let bcd = sample.register_b & 0x04 == 0;
    let second = if bcd {
        bcd_to_binary(sample.second)
    } else {
        sample.second
    };
    let minute = if bcd {
        bcd_to_binary(sample.minute)
    } else {
        sample.minute
    };
    let mut hour = if bcd {
        bcd_hour_to_binary(sample.hour)
    } else {
        sample.hour
    };
    let day = if bcd {
        bcd_to_binary(sample.day)
    } else {
        sample.day
    };
    let month = if bcd {
        bcd_to_binary(sample.month)
    } else {
        sample.month
    };
    let mut year = if bcd {
        bcd_to_binary(sample.year)
    } else {
        sample.year
    } as usize;
    let century = if bcd {
        bcd_to_binary(sample.century)
    } else {
        sample.century
    };

    // convert a 12-hour clock to the 24-hour clock
    if (sample.register_b & 0x02) == 0 && (hour & 0x80) != 0 {
        proof {
            assert(hour & 0x7F <= 127) by (bit_vector);
        }
        hour = ((hour & 0x7F) + 12) % 24;
    }

    // calculate the full four-digit year
    match century_handler {
        CMOSCenturyHandler::CenturyRegister(_) => {
            year = year + (century as usize) * 100;
        },
        CMOSCenturyHandler::CurrentYear(current) => {
            year = year + (current / 100) * 100;
            proof {
                vstd::arithmetic::div_mod::lemma_fundamental_div_mod(current as int, 100);
                vstd::arithmetic::div_mod::lemma_mod_division_less_than_divisor(
                    current as int,
                    100,
                );
            }
            if year < current {
                year = year + 100;
            }
        },
    }

    RTCDateTime { second, minute, hour, day, month, year }
}

} // verus!
