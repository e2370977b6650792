//! Mode A/C message handling: framing, hex extraction and the Gillham
//! code to altitude decoder.

use vstd::prelude::*;
use vstd::string::StringSliceAdditionalSpecFns;

verus! {

/// Connection status of the ingestion task, reported to observers on
/// every change.
#[derive(Clone, Copy, Debug, PartialEq, Eq, Structural)]
pub enum ConnectionState {
    Disconnected,
    Connecting,
    Connected,
}

/// What the ingestion loop just observed; the next connection state is
/// a pure function of it.
#[derive(Clone, Copy, Debug, PartialEq, Eq, Structural)]
pub enum ConnectionEvent {
    /// An address to connect to arrived from the operator.
    AddressReceived,
    /// The connection attempt failed.
    ConnectFailed,
    /// The connection attempt succeeded.
    ConnectSucceeded,
    /// Reading a line from the live connection failed.
    ReadFailed,
}

pub open spec fn connection_state_after(event: ConnectionEvent) -> ConnectionState {
    match event {
        ConnectionEvent::AddressReceived => ConnectionState::Connecting,
        ConnectionEvent::ConnectFailed => ConnectionState::Disconnected,
        ConnectionEvent::ConnectSucceeded => ConnectionState::Connected,
        ConnectionEvent::ReadFailed => ConnectionState::Disconnected,
    }
}

/// The connection-state transition of the ingestion loop: waiting for an
/// address, attempting a connection, reading from it, and falling back to
/// disconnected when the attempt or the read fails.
pub fn connection_step(event: ConnectionEvent) -> (next: ConnectionState)
    ensures
        next == connection_state_after(event),
{
    match event {
        ConnectionEvent::AddressReceived => ConnectionState::Connecting,
        ConnectionEvent::ConnectFailed => ConnectionState::Disconnected,
        ConnectionEvent::ConnectSucceeded => ConnectionState::Connected,
        ConnectionEvent::ReadFailed => ConnectionState::Disconnected,
    }
}

/// Bits that a valid Mode A/C altitude code never sets: everything above
/// the 12 data bits, plus D1 (unused for altitude) and the X bit.
pub const MUST_BE_ZERO_MASK: u32 = 0xffff_8889;

/// The C1/C2/C4 pulse group; all three clear is a defined-invalid code.
pub const C_GROUP_MASK: u32 = 0x0000_00f0;

/// One-hundreds pulses C1, C2, C4 and their Gray-unfolding masks.
pub const C1_BIT: u32 = 0x0010;

pub const C2_BIT: u32 = 0x0020;

pub const C4_BIT: u32 = 0x0040;

/// Five-hundreds pulses D2, D4, A1, A2, A4, B1, B2, B4 (D1 is never
/// consulted) and their Gray-unfolding masks.
pub const D2_BIT: u32 = 0x0002;

pub const D4_BIT: u32 = 0x0004;

pub const A1_BIT: u32 = 0x1000;

pub const A2_BIT: u32 = 0x2000;

pub const A4_BIT: u32 = 0x4000;

pub const B1_BIT: u32 = 0x0100;

pub const B2_BIT: u32 = 0x0200;

pub const B4_BIT: u32 = 0x0400;

/// The fine (100 ft) component before the final Gray-order correction:
/// XOR-fold the C pulses, then swap 5 and 7.
pub open spec fn one_hundreds_of(mode_a: u32) -> u32 {
    let c1 = if mode_a & C1_BIT != 0 {
        0x007u32
    } else {
        0u32
    };
    let c2 = if mode_a & C2_BIT != 0 {
        (c1 ^ 0x003) as u32
    } else {
        c1
    };
    let c4 = if mode_a & C4_BIT != 0 {
        (c2 ^ 0x001) as u32
    } else {
        c2
    };
    if c4 & 5 == 5 {
        (c4 ^ 2) as u32
    } else {
        c4
    }
}

/// The coarse (500 ft) component: XOR-fold the D, A and B pulses.
pub open spec fn five_hundreds_of(mode_a: u32) -> u32 {
    let d2 = if mode_a & D2_BIT != 0 {
        0x0ffu32
    } else {
        0u32
    };
    let d4 = if mode_a & D4_BIT != 0 {
        (d2 ^ 0x07f) as u32
    } else {
        d2
    };
    let a1 = if mode_a & A1_BIT != 0 {
        (d4 ^ 0x03f) as u32
    } else {
        d4
    };
    let a2 = if mode_a & A2_BIT != 0 {
        (a1 ^ 0x01f) as u32
    } else {
        a1
    };
    let a4 = if mode_a & A4_BIT != 0 {
        (a2 ^ 0x00f) as u32
    } else {
        a2
    };
    let b1 = if mode_a & B1_BIT != 0 {
        (a4 ^ 0x007) as u32
    } else {
        a4
    };
    let b2 = if mode_a & B2_BIT != 0 {
        (b1 ^ 0x003) as u32
    } else {
        b1
    };
    if mode_a & B4_BIT != 0 {
        (b2 ^ 0x001) as u32
    } else {
        b2
    }
}

/// The whole decoder: a packed Mode A/C code to an altitude in hundreds
/// of feet, or `None` for the defined-invalid encodings.
pub open spec fn decode_gillham(mode_a: u32) -> Option<u32> {
    if mode_a & MUST_BE_ZERO_MASK != 0 || mode_a & C_GROUP_MASK == 0 {
        None
    } else {
        let one_hundreds = one_hundreds_of(mode_a);
        if one_hundreds > 5 {
            None
        } else {
            let five_hundreds = five_hundreds_of(mode_a);
            let corrected = if five_hundreds & 1 != 0 && one_hundreds <= 6 {
                6 - one_hundreds
            } else {
                one_hundreds as int
            };
            let n = five_hundreds * 5 + corrected;
            if n >= 13 {
                Some((n - 13) as u32)
            } else {
                None
            }
        }
    }
}

proof fn lemma_component_bounds(mode_a: u32)
    by (bit_vector)
    ensures
        one_hundreds_of(mode_a) <= 7,
        five_hundreds_of(mode_a) <= 0xff,
{
}

/// Every decoded value fits comfortably below the 100-foot multiplier's
/// overflow bound.
pub proof fn lemma_decoded_bound(mode_a: u32)
    ensures
        decode_gillham(mode_a) matches Some(n) ==> n <= 1268,
{
    lemma_component_bounds(mode_a);
}

/// Decode one packed Mode A/C code into hundreds of feet.
///
/// Rejects codes with any must-be-zero bit set or with an empty C pulse
/// group, codes whose corrected one-hundreds component exceeds 5, and
/// codes whose combined value lies below the representable floor.
pub fn mode_a_to_mode_c(mode_a: u32) -> (r: Option<u32>)
    ensures
        r == decode_gillham(mode_a),
        (mode_a & MUST_BE_ZERO_MASK != 0 || mode_a & C_GROUP_MASK == 0) ==> r is None,
{
    proof {
        lemma_component_bounds(mode_a);
    }
    if mode_a & MUST_BE_ZERO_MASK != 0 || mode_a & C_GROUP_MASK == 0 {
        return None;
    }
    let c1: u32 = if mode_a & C1_BIT != 0 {
        0x007
    } else {
        0
    };
    let c2: u32 = if mode_a & C2_BIT != 0 {
        c1 ^ 0x003
    } else {
        c1
    };
    let c4: u32 = if mode_a & C4_BIT != 0 {
        c2 ^ 0x001
    } else {
        c2
    };
    // Remove 7s: make 7 -> 5 and 5 -> 7.
    let mut one_hundreds: u32 = if c4 & 5 == 5 {
        c4 ^ 2
    } else {
        c4
    };
    assert(one_hundreds == one_hundreds_of(mode_a));

    // Only 1 to 5 are valid after the correction.
    if one_hundreds > 5 {
        return None;
    }

    let d2: u32 = if mode_a & D2_BIT != 0 {
        0x0ff
    } else {
        0
    };
    let d4: u32 = if mode_a & D4_BIT != 0 {
        d2 ^ 0x07f
    } else {
        d2
    };
    let a1: u32 = if mode_a & A1_BIT != 0 {
        d4 ^ 0x03f
    } else {
        d4
    };
    let a2: u32 = if mode_a & A2_BIT != 0 {
        a1 ^ 0x01f
    } else {
        a1
    };
    let a4: u32 = if mode_a & A4_BIT != 0 {
        a2 ^ 0x00f
    } else {
        a2
    };
    let b1: u32 = if mode_a & B1_BIT != 0 {
        a4 ^ 0x007
    } else {
        a4
    };
    let b2: u32 = if mode_a & B2_BIT != 0 {
        b1 ^ 0x003
    } else {
        b1
    };
    let five_hundreds: u32 = if mode_a & B4_BIT != 0 {
        b2 ^ 0x001
    } else {
        b2
    };
    assert(five_hundreds == five_hundreds_of(mode_a));

    // Correct the Gray-code order of the one-hundreds component.
    if five_hundreds & 1 != 0 && one_hundreds <= 6 {
        one_hundreds = 6 - one_hundreds;
    }

    let n = five_hundreds * 5 + one_hundreds;
    if n >= 13 {
        Some(n - 13)
    } else {
        None
    }
}

/// The numeric value of one ASCII hex digit, upper or lower case.
pub open spec fn hex_digit_value(b: u8) -> Option<u32> {
    if 0x30 <= b && b <= 0x39 {
        Some((b - 0x30) as u32)
    } else if 0x61 <= b && b <= 0x66 {
        Some((b - 0x61 + 10) as u32)
    } else if 0x41 <= b && b <= 0x46 {
        Some((b - 0x41 + 10) as u32)
    } else {
        None
    }
}

/// Four ASCII hex digits as one value, most significant first.
pub open spec fn hex4_value(bs: Seq<u8>) -> Option<u32>
    recommends
        bs.len() == 4,
{
    match (hex_digit_value(bs[0]), hex_digit_value(bs[1]), hex_digit_value(bs[2]), hex_digit_value(
        bs[3],
    )) {
        (Some(d0), Some(d1), Some(d2), Some(d3)) => Some(
            (0x1000 * d0 + 0x100 * d1 + 0x10 * d2 + d3) as u32,
        ),
        _ => None,
    }
}

/// What one raw line yields: `None` for everything that is not a
/// well-formed Mode A/C altitude reply, otherwise the altitude in feet.
pub open spec fn message_altitude(bytes: Seq<u8>) -> Option<u32> {
    if bytes.len() != 7 {
        None
    } else {
        match hex4_value(bytes.subrange(1, 5)) {
            None => None,
            Some(code) => match decode_gillham(code) {
                None => None,
                Some(hundreds) => Some((hundreds * 100) as u32),
            },
        }
    }
}

fn hex_digit(b: u8) -> (r: Option<u32>)
    ensures
        r == hex_digit_value(b),
{
    if 0x30 <= b && b <= 0x39 {
        Some((b - 0x30) as u32)
    } else if 0x61 <= b && b <= 0x66 {
        Some((b - 0x61) as u32 + 10)
    } else if 0x41 <= b && b <= 0x46 {
        Some((b - 0x41) as u32 + 10)
    } else {
        None
    }
}

/// Handle one raw text line: only 7-byte lines are Mode A/C altitude
/// replies; bytes 1 to 4 are read as four hex digits and decoded.
/// Everything malformed is silently rejected as routine noise.
pub fn on_message(message: &str) -> (r: Option<u32>)
    ensures
        r == message_altitude(message.spec_bytes()),
        message.spec_bytes().len() != 7 ==> r is None,
        r matches Some(alt) ==> alt % 100 == 0,
{
    if message.len() != 7 {
        return None;
    }
    let bytes = message.as_bytes();
    let ghost view = message.spec_bytes();
    assert(view.subrange(1, 5) =~= seq![view[1], view[2], view[3], view[4]]);
    let d0 = hex_digit(bytes[1]);
    let d1 = hex_digit(bytes[2]);
    let d2 = hex_digit(bytes[3]);
    let d3 = hex_digit(bytes[4]);
    match (d0, d1, d2, d3) {
        (Some(d0), Some(d1), Some(d2), Some(d3)) => {
            let code = 0x1000 * d0 + 0x100 * d1 + 0x10 * d2 + d3;
            match mode_a_to_mode_c(code) {
                Some(hundreds) => {
                    proof {
                        lemma_decoded_bound(code);
                        assert(hundreds * 100 % 100 == 0) by (nonlinear_arith);
                    }
                    Some(hundreds * 100)
                },
                None => None,
            }
        },
        _ => None,
    }
}

} // verus!
