//! The typed AIS message records and the per-type field decoders.
//!
//! Scaled quantities are carried as the standard's raw integer units so
//! that every field is exact: speed over ground in tenths of a knot,
//! course over ground in tenths of a degree, longitude and latitude in
//! 1/600000 of a degree.  A raw sentinel ("not available") pattern is
//! mapped to `None`, never exposed as a number.

use vstd::arithmetic::power2::pow2;
use vstd::prelude::*;

use crate::errors::Error;
use crate::sixbit::{
    lemma_u_field_bound, read_signed, read_unsigned, spec_i_field, spec_u_field,
};

verus! {

/// The navigation status of a position report, a closed 4-bit
/// enumeration; codes the standard leaves open fall back to
/// `NotDefined`.
#[derive(Debug, Clone, Copy, PartialEq, Eq)]
pub enum NavigationStatus {
    UnderWayUsingEngine,
    AtAnchor,
    NotUnderCommand,
    RestrictedManoeuverability,
    ConstrainedByDraught,
    Moored,
    Aground,
    EngagedInFishing,
    UnderWaySailing,
    ReservedHsc,
    ReservedWig,
    PowerDrivenVesselTowingAstern,
    PowerDrivenVesselPushingAhead,
    ReservedFutureUse,
    AisSartActive,
    NotDefined,
}

/// The status named by a 4-bit navigation-status code; anything above
/// the defined range maps to `NotDefined`.
pub open spec fn spec_navigation_status(code: u8) -> NavigationStatus {
    if code == 0 {
        NavigationStatus::UnderWayUsingEngine
    } else if code == 1 {
        NavigationStatus::AtAnchor
    } else if code == 2 {
        NavigationStatus::NotUnderCommand
    } else if code == 3 {
        NavigationStatus::RestrictedManoeuverability
    } else if code == 4 {
        NavigationStatus::ConstrainedByDraught
    } else if code == 5 {
        NavigationStatus::Moored
    } else if code == 6 {
        NavigationStatus::Aground
    } else if code == 7 {
        NavigationStatus::EngagedInFishing
    } else if code == 8 {
        NavigationStatus::UnderWaySailing
    } else if code == 9 {
        NavigationStatus::ReservedHsc
    } else if code == 10 {
        NavigationStatus::ReservedWig
    } else if code == 11 {
        NavigationStatus::PowerDrivenVesselTowingAstern
    } else if code == 12 {
        NavigationStatus::PowerDrivenVesselPushingAhead
    } else if code == 13 {
        NavigationStatus::ReservedFutureUse
    } else if code == 14 {
        NavigationStatus::AisSartActive
    } else {
        NavigationStatus::NotDefined
    }
}

impl NavigationStatus {
    /// Maps a raw navigation-status code to its variant.
    pub fn from_code(code: u8) -> (r: NavigationStatus)
        ensures
            r == spec_navigation_status(code),
    {
        if code == 0 {
            NavigationStatus::UnderWayUsingEngine
        } else if code == 1 {
            NavigationStatus::AtAnchor
        } else if code == 2 {
            NavigationStatus::NotUnderCommand
        } else if code == 3 {
            NavigationStatus::RestrictedManoeuverability
        } else if code == 4 {
            NavigationStatus::ConstrainedByDraught
        } else if code == 5 {
            NavigationStatus::Moored
        } else if code == 6 {
            NavigationStatus::Aground
        } else if code == 7 {
            NavigationStatus::EngagedInFishing
        } else if code == 8 {
            NavigationStatus::UnderWaySailing
        } else if code == 9 {
            NavigationStatus::ReservedHsc
        } else if code == 10 {
            NavigationStatus::ReservedWig
        } else if code == 11 {
            NavigationStatus::PowerDrivenVesselTowingAstern
        } else if code == 12 {
            NavigationStatus::PowerDrivenVesselPushingAhead
        } else if code == 13 {
            NavigationStatus::ReservedFutureUse
        } else if code == 14 {
            NavigationStatus::AisSartActive
        } else {
            NavigationStatus::NotDefined
        }
    }
}

/// A position report (message types 1 to 3).
///
/// Units: `speed_over_ground` in tenths of a knot, `course_over_ground`
/// in tenths of a degree, `longitude` and `latitude` in 1/600000 of a
/// degree (so 600000 units is one degree), `timestamp` the UTC second of
/// minute with 60..=63 reserved as status codes.
#[derive(Debug, Clone, Copy, PartialEq)]
pub struct PositionReport {
    pub message_type: u8,
    pub mmsi: u32,
    pub navigation_status: NavigationStatus,
    pub speed_over_ground: Option<u16>,
    pub longitude: Option<i32>,
    pub latitude: Option<i32>,
    pub course_over_ground: Option<u16>,
    pub timestamp: u8,
    pub raim: bool,
}

/// Raw speed value meaning "speed not available".
pub const SPEED_NOT_AVAILABLE: u16 = 1023;

/// Raw longitude meaning "longitude not available" (181 degrees east).
pub const LONGITUDE_NOT_AVAILABLE: i64 = 108600000;

/// Raw latitude meaning "latitude not available" (91 degrees north).
pub const LATITUDE_NOT_AVAILABLE: i64 = 54600000;

/// Raw course value meaning "course not available" (360.0 degrees).
pub const COURSE_NOT_AVAILABLE: u16 = 3600;

/// Number of bits a position report must provide, through the RAIM flag.
pub const POSITION_REPORT_BITS: usize = 149;

/// The position report encoded by a bit sequence of at least
/// `POSITION_REPORT_BITS` bits, field by field: each named field is the
/// unsigned or two's-complement value of its fixed bit range, with the
/// standard's sentinel patterns mapped to `None`.
pub open spec fn spec_position_report(bits: Seq<bool>) -> PositionReport {
    PositionReport {
        message_type: spec_u_field(bits, 0, 6) as u8,
        mmsi: spec_u_field(bits, 8, 30) as u32,
        navigation_status: spec_navigation_status(spec_u_field(bits, 38, 4) as u8),
        speed_over_ground: if spec_u_field(bits, 50, 10) == SPEED_NOT_AVAILABLE {
            None
        } else {
            Some(spec_u_field(bits, 50, 10) as u16)
        },
        longitude: if spec_i_field(bits, 61, 28) == LONGITUDE_NOT_AVAILABLE {
            None
        } else {
            Some(spec_i_field(bits, 61, 28) as i32)
        },
        latitude: if spec_i_field(bits, 89, 27) == LATITUDE_NOT_AVAILABLE {
            None
        } else {
            Some(spec_i_field(bits, 89, 27) as i32)
        },
        course_over_ground: if spec_u_field(bits, 116, 12) == COURSE_NOT_AVAILABLE {
            None
        } else {
            Some(spec_u_field(bits, 116, 12) as u16)
        },
        timestamp: spec_u_field(bits, 137, 6) as u8,
        raim: bits[148],
    }
}

proof fn lemma_i_field_range(bits: Seq<bool>, start: int, w: nat)
    requires
        w >= 1,
    ensures
        -pow2((w - 1) as nat) <= spec_i_field(bits, start, w) < pow2((w - 1) as nat),
{
    lemma_u_field_bound(bits, start, w);
    vstd::arithmetic::power2::lemma_pow2_unfold(w);
}

/// Decodes a position report from an expanded bit sequence.
pub fn decode_position_report(bits: &Vec<bool>) -> (r: PositionReport)
    requires
        bits@.len() >= POSITION_REPORT_BITS,
    ensures
        r == spec_position_report(bits@),
{
    proof {
        vstd::arithmetic::power2::lemma2_to64();
        lemma_u_field_bound(bits@, 0, 6);
        lemma_u_field_bound(bits@, 8, 30);
        lemma_u_field_bound(bits@, 38, 4);
        lemma_u_field_bound(bits@, 50, 10);
        lemma_u_field_bound(bits@, 116, 12);
        lemma_u_field_bound(bits@, 137, 6);
        lemma_i_field_range(bits@, 61, 28);
        lemma_i_field_range(bits@, 89, 27);
    }
    let message_type = read_unsigned(bits, 0, 6) as u8;
    let mmsi = read_unsigned(bits, 8, 30) as u32;
    let navigation_status = NavigationStatus::from_code(read_unsigned(bits, 38, 4) as u8);
    let sog_raw = read_unsigned(bits, 50, 10) as u16;
    let speed_over_ground = if sog_raw == SPEED_NOT_AVAILABLE {
        None
    } else {
        Some(sog_raw)
    };
    let lon_raw = read_signed(bits, 61, 28);
    let longitude = if lon_raw == LONGITUDE_NOT_AVAILABLE {
        None
    } else {
        Some(lon_raw as i32)
    };
    let lat_raw = read_signed(bits, 89, 27);
    let latitude = if lat_raw == LATITUDE_NOT_AVAILABLE {
        None
    } else {
        Some(lat_raw as i32)
    };
    let cog_raw = read_unsigned(bits, 116, 12) as u16;
    let course_over_ground = if cog_raw == COURSE_NOT_AVAILABLE {
        None
    } else {
        Some(cog_raw)
    };
    let timestamp = read_unsigned(bits, 137, 6) as u8;
    let raim = bits[148];
    PositionReport {
        message_type,
        mmsi,
        navigation_status,
        speed_over_ground,
        longitude,
        latitude,
        course_over_ground,
        timestamp,
        raim,
    }
}

/// Sentinel mapping: a raw speed field of 1023 decodes to an absent
/// speed, the raw longitude, latitude and course sentinels decode to
/// absent values, and every other raw value is passed through exactly;
/// no sentinel is ever coerced to a number.
pub proof fn lemma_sentinel_mapping(bits: Seq<bool>)
    ensures
        spec_u_field(bits, 50, 10) == SPEED_NOT_AVAILABLE <==> spec_position_report(
            bits,
        ).speed_over_ground is None,
        spec_u_field(bits, 50, 10) != SPEED_NOT_AVAILABLE ==> spec_position_report(
            bits,
        ).speed_over_ground == Some(spec_u_field(bits, 50, 10) as u16),
        spec_i_field(bits, 61, 28) == LONGITUDE_NOT_AVAILABLE <==> spec_position_report(
            bits,
        ).longitude is None,
        spec_i_field(bits, 89, 27) == LATITUDE_NOT_AVAILABLE <==> spec_position_report(
            bits,
        ).latitude is None,
        spec_u_field(bits, 116, 12) == COURSE_NOT_AVAILABLE <==> spec_position_report(
            bits,
        ).course_over_ground is None,
{
}

/// One decoded AIS message, a tagged union over the implemented
/// message-type variants.
#[derive(Debug, Clone, Copy, PartialEq)]
pub enum AisMessage {
    PositionReport(PositionReport),
}

/// Largest message type code the AIS standard defines.
pub const MAX_MESSAGE_TYPE: u8 = 27;

/// What dispatching an expanded bit sequence yields: the decoded record
/// for an implemented type, `None` for a type the standard defines but
/// this library does not decode, and an error for a type code outside
/// the standard or a bit sequence too short for its type.
pub open spec fn spec_dispatch(bits: Seq<bool>) -> Result<Option<AisMessage>, Error> {
    if bits.len() < 6 {
        Err(Error::PayloadTooShort)
    } else {
        let code = spec_u_field(bits, 0, 6) as u8;
        if 1 <= code <= 3 {
            if bits.len() < POSITION_REPORT_BITS {
                Err(Error::PayloadTooShort)
            } else {
                Ok(Some(AisMessage::PositionReport(spec_position_report(bits))))
            }
        } else if code <= MAX_MESSAGE_TYPE {
            Ok(None)
        } else {
            Err(Error::UnsupportedMessageType { code })
        }
    }
}

/// Reads the 6-bit message type code and routes to the matching
/// decoder.
pub fn dispatch_message(bits: &Vec<bool>) -> (r: Result<Option<AisMessage>, Error>)
    ensures
        r == spec_dispatch(bits@),
{
    if bits.len() < 6 {
        return Err(Error::PayloadTooShort);
    }
    proof {
        vstd::arithmetic::power2::lemma2_to64();
        lemma_u_field_bound(bits@, 0, 6);
    }
    let code = read_unsigned(bits, 0, 6) as u8;
    if 1 <= code && code <= 3 {
        if bits.len() < POSITION_REPORT_BITS {
            Err(Error::PayloadTooShort)
        } else {
            Ok(Some(AisMessage::PositionReport(decode_position_report(bits))))
        }
    } else if code <= MAX_MESSAGE_TYPE {
        Ok(None)
    } else {
        Err(Error::UnsupportedMessageType { code })
    }
}

} // verus!
