//! The DJI remote controller: its S.Bus channels turned into stick and switch
//! readings.

use vstd::prelude::*;

verus! {

/// The lowest channel value a DJI receiver sends.
pub const DJI_MIN: u16 = 364;

/// The highest channel value a DJI receiver sends.
pub const DJI_MAX: u16 = 1684;

/// How far a stick reading may lie from the centre: `DJI_MAX - DJI_MIN`.
pub const DJI_RANGE: i16 = 1320;

/// The channel value of a centred stick: `(DJI_MAX + DJI_MIN) / 2`.
pub const DJI_MIDDL: i16 = 1024;

/// The channel values of one decoded S.Bus frame.
pub struct SBusPacket {
    pub channels: [u16; 16],
}

/// Stick and switch readings of the DJI remote controller.
///
/// Sticks read from `-DJI_RANGE` to `DJI_RANGE`, centred at 0; a switch
/// reads -1, 0 or 1.
#[derive(Clone, Copy, Debug, PartialEq, Eq, Structural)]
pub struct DjiSBusPacket {
    pub ch_l_hori: i16,
    pub ch_l_vert: i16,
    pub ch_r_hori: i16,
    pub ch_r_vert: i16,
    pub sw_left: i8,
    pub sw_right: i8,
}

/// `x as i16`: the 16 bits of `x` read as a two's-complement number.
pub open spec fn wrap_i16(x: u16) -> int {
    if x < 32768 {
        x as int
    } else {
        x - 65536
    }
}

/// A channel value as an offset from the centre.
pub open spec fn centred(ch: u16) -> int {
    wrap_i16(ch) - DJI_MIDDL
}

/// A switch position from a centred channel value: its sign.
pub open spec fn switch_spec(v: int) -> i8 {
    if v < 0 {
        -1i8
    } else if v > 0 {
        1i8
    } else {
        0i8
    }
}

/// The channels that `DjiSBusPacket::from` accepts: the four sticks within
/// `DJI_RANGE` of the centre, the two switch channels without overflow when
/// centred.
pub open spec fn channels_valid(c: Seq<u16>) -> bool {
    &&& c.len() == 16
    &&& forall|k: int| 0 <= k < 4 ==> -DJI_RANGE <= #[trigger] centred(c[k]) <= DJI_RANGE
    &&& centred(c[5]) >= i16::MIN
    &&& centred(c[6]) >= i16::MIN
}

/// The readings of a frame: channels 3, 2, 0 and 1 are the left horizontal,
/// left vertical, right horizontal and right vertical sticks; channels 5 and
/// 6 are the left and right switches.
pub open spec fn packet_spec(c: Seq<u16>) -> DjiSBusPacket {
    DjiSBusPacket {
        ch_l_hori: centred(c[3]) as i16,
        ch_l_vert: centred(c[2]) as i16,
        ch_r_hori: centred(c[0]) as i16,
        ch_r_vert: centred(c[1]) as i16,
        sw_left: switch_spec(centred(c[5])),
        sw_right: switch_spec(centred(c[6])),
    }
}

/// Whether a packet's readings lie in their ranges.
pub open spec fn readings_in_range(p: DjiSBusPacket) -> bool {
    &&& -DJI_RANGE <= p.ch_l_hori <= DJI_RANGE
    &&& -DJI_RANGE <= p.ch_l_vert <= DJI_RANGE
    &&& -DJI_RANGE <= p.ch_r_hori <= DJI_RANGE
    &&& -DJI_RANGE <= p.ch_r_vert <= DJI_RANGE
    &&& -1 <= p.sw_left <= 1
    &&& -1 <= p.sw_right <= 1
}

fn as_i16(x: u16) -> (r: i16)
    ensures
        r == wrap_i16(x),
{
    let r = #[verifier::truncate] (x as i16);
    assert(x < 32768 ==> r == x) by (bit_vector)
        requires
            r == #[verifier::truncate] (x as i16),
    ;
    assert(x >= 32768 ==> r == x - 65536) by (bit_vector)
        requires
            r == #[verifier::truncate] (x as i16),
    ;
    r
}

/// The sign of a centred switch channel.
pub fn switch(v: i16) -> (r: i8)
    ensures
        r == switch_spec(v as int),
{
    if v < 0 {
        -1
    } else if v > 0 {
        1
    } else {
        0
    }
}

/// The length of an S.Bus frame: a start byte, 22 bytes of channel data,
/// a flag byte and an end byte.
pub const SBUS_FRAME_LEN: usize = 25;

/// The byte that starts an S.Bus frame.
pub const SBUS_HEADER: u8 = 0x0f;

/// The byte that ends an S.Bus frame.
pub const SBUS_FOOTER: u8 = 0x00;

/// Whether `f` is one S.Bus frame: 25 bytes, framed by the start and end
/// bytes.
pub open spec fn is_sbus_frame(f: Seq<u8>) -> bool {
    f.len() == SBUS_FRAME_LEN && f[0] == SBUS_HEADER && f[24] == SBUS_FOOTER
}

/// Three bytes of `f` from index `k`, little-endian.
pub open spec fn sbus_window(f: Seq<u8>, k: int) -> u32 {
    (f[k] as u32) | ((f[k + 1] as u32) << 8u32) | ((f[k + 2] as u32) << 16u32)
}

/// Channel `i` of a frame: the 11 bits from bit `11 * i` of the channel
/// data (bytes 1 to 22), least significant bit first.
pub open spec fn sbus_channel(f: Seq<u8>, i: int) -> u16 {
    ((sbus_window(f, 1 + (11 * i) / 8) >> (((11 * i) % 8) as u32)) & 0x7ffu32) as u16
}

/// The channels that `DjiSBusPacket::from` accepts, as a test that callers
/// can make.
pub fn channels_ok(p: &SBusPacket) -> (r: bool)
    ensures
        r == channels_valid(p.channels@),
{
    let c = &p.channels;
    let mut k: usize = 0;
    while k < 4
        invariant
            0 <= k <= 4,
            c@ == p.channels@,
            forall|j: int| 0 <= j < k ==> -DJI_RANGE <= #[trigger] centred(c@[j]) <= DJI_RANGE,
        decreases 4 - k,
    {
        let v = as_i16(c[k]) as i32 - DJI_MIDDL as i32;
        assert(centred(c@[k as int]) == v);
        if v < -(DJI_RANGE as i32) || v > DJI_RANGE as i32 {
            return false;
        }
        k = k + 1;
    }
    let v5 = as_i16(c[5]) as i32 - DJI_MIDDL as i32;
    let v6 = as_i16(c[6]) as i32 - DJI_MIDDL as i32;
    v5 >= i16::MIN as i32 && v6 >= i16::MIN as i32
}

/// The channels of an S.Bus frame, when `f` is one.
pub fn decode_sbus_frame(f: &[u8]) -> (r: Option<SBusPacket>)
    ensures
        r is Some <==> is_sbus_frame(f@),
        r matches Some(p) ==> forall|i: int| 0 <= i < 16 ==> #[trigger] p.channels@[i] == sbus_channel(f@, i),
{
    if f.len() != SBUS_FRAME_LEN || f[0] != SBUS_HEADER || f[24] != SBUS_FOOTER {
        return None;
    }
    let mut channels = [0u16; 16];
    let mut i: usize = 0;
    while i < 16
        invariant
            0 <= i <= 16,
            is_sbus_frame(f@),
            channels@.len() == 16,
            forall|j: int| 0 <= j < i ==> #[trigger] channels@[j] == sbus_channel(f@, j),
        decreases 16 - i,
    {
        let bit = 11 * i;
        let k = 1 + bit / 8;
        let shift = (bit % 8) as u32;
        let w = (f[k] as u32) | ((f[k + 1] as u32) << 8u32) | ((f[k + 2] as u32) << 16u32);
        let v = ((w >> shift) & 0x7ff) as u16;
        channels[i] = v;
        i = i + 1;
    }
    Some(SBusPacket { channels })
}

impl DjiSBusPacket {
    /// All readings zero.
    pub fn new() -> (r: DjiSBusPacket)
        ensures
            r == (DjiSBusPacket {
                ch_l_hori: 0,
                ch_l_vert: 0,
                ch_r_hori: 0,
                ch_r_vert: 0,
                sw_left: 0,
                sw_right: 0,
            }),
            readings_in_range(r),
    {
        DjiSBusPacket { ch_l_hori: 0, ch_l_vert: 0, ch_r_hori: 0, ch_r_vert: 0, sw_left: 0, sw_right: 0 }
    }

    /// The readings of an S.Bus frame.
    pub fn from(value: &SBusPacket) -> (r: DjiSBusPacket)
        requires
            channels_valid(value.channels@),
        ensures
            r == packet_spec(value.channels@),
            readings_in_range(r),
    {
        let c = &value.channels;
        assert(-DJI_RANGE <= centred(c@[0]) <= DJI_RANGE);
        assert(-DJI_RANGE <= centred(c@[1]) <= DJI_RANGE);
        assert(-DJI_RANGE <= centred(c@[2]) <= DJI_RANGE);
        assert(-DJI_RANGE <= centred(c@[3]) <= DJI_RANGE);
        let s = DjiSBusPacket {
            ch_l_hori: as_i16(c[3]) - DJI_MIDDL,
            ch_l_vert: as_i16(c[2]) - DJI_MIDDL,
            ch_r_hori: as_i16(c[0]) - DJI_MIDDL,
            ch_r_vert: as_i16(c[1]) - DJI_MIDDL,
            sw_left: switch(as_i16(c[5]) - DJI_MIDDL),
            sw_right: switch(as_i16(c[6]) - DJI_MIDDL),
        };
        s
    }
}

/// With every channel below 32768 (S.Bus channels have 11 bits), a stick
/// reads its channel minus 1024: channel 0 the right horizontal stick, 1
/// the right vertical, 2 the left vertical, 3 the left horizontal; a switch
/// reads -1, 0 or 1 as its channel is below, at or above 1024 (channel 5
/// the left switch, 6 the right); the channels are accepted exactly when
/// the four stick channels are at most 2344; a stick channel within
/// 364..=1684 reads within -660..=660.
pub proof fn lemma_channel_readings(c: Seq<u16>)
    requires
        c.len() == 16,
        forall|k: int| 0 <= k < 16 ==> #[trigger] c[k] < 32768,
    ensures
        packet_spec(c).ch_r_hori == c[0] - 1024,
        packet_spec(c).ch_r_vert == c[1] - 1024,
        packet_spec(c).ch_l_vert == c[2] - 1024,
        packet_spec(c).ch_l_hori == c[3] - 1024,
        (packet_spec(c).sw_left == -1) <==> c[5] < 1024,
        (packet_spec(c).sw_left == 0) <==> c[5] == 1024,
        (packet_spec(c).sw_left == 1) <==> c[5] > 1024,
        (packet_spec(c).sw_right == -1) <==> c[6] < 1024,
        (packet_spec(c).sw_right == 0) <==> c[6] == 1024,
        (packet_spec(c).sw_right == 1) <==> c[6] > 1024,
        channels_valid(c) <==> (c[0] <= 2344 && c[1] <= 2344 && c[2] <= 2344 && c[3] <= 2344),
        forall|k: int|
            0 <= k < 4 && 364 <= c[k] <= 1684 ==> -660 <= #[trigger] centred(c[k]) <= 660,
{
    assert(c[0] < 32768 && c[1] < 32768 && c[2] < 32768 && c[3] < 32768);
    assert(c[5] < 32768 && c[6] < 32768);
    if c[0] <= 2344 && c[1] <= 2344 && c[2] <= 2344 && c[3] <= 2344 {
        assert forall|k: int| 0 <= k < 4 implies -DJI_RANGE <= #[trigger] centred(c[k]) <= DJI_RANGE by {
            assert(c[k] < 32768);
        }
    }
}

proof fn lemma_window_bit(b0: u8, b1: u8, b2: u8, w: u32, s: u32, j: u32)
    requires
        w == (b0 as u32) | ((b1 as u32) << 8u32) | ((b2 as u32) << 16u32),
        s < 8,
        j < 11,
    ensures
        ((((w >> s) & 0x7ffu32) as u16 >> (j as u16)) & 1u16 == 1u16) == (if s + j < 8 {
            (b0 >> ((s + j) as u8)) & 1u8 == 1u8
        } else if s + j < 16 {
            (b1 >> ((s + j - 8) as u8)) & 1u8 == 1u8
        } else {
            (b2 >> ((s + j - 16) as u8)) & 1u8 == 1u8
        }),
{
    let t: u32 = (s + j) as u32;
    assert(((((w >> s) & 0x7ffu32) as u16 >> (j as u16)) & 1u16 == 1u16) == ((w >> t) & 1u32
        == 1u32)) by (bit_vector)
        requires
            s < 8,
            j < 11,
            t == s + j,
    ;
    if t < 8 {
        assert(((w >> t) & 1u32 == 1u32) == ((b0 >> (t as u8)) & 1u8 == 1u8)) by (bit_vector)
            requires
                w == (b0 as u32) | ((b1 as u32) << 8u32) | ((b2 as u32) << 16u32),
                t < 8,
        ;
    } else if t < 16 {
        let u: u32 = (t - 8) as u32;
        assert(((w >> t) & 1u32 == 1u32) == ((b1 >> (u as u8)) & 1u8 == 1u8)) by (bit_vector)
            requires
                w == (b0 as u32) | ((b1 as u32) << 8u32) | ((b2 as u32) << 16u32),
                8 <= t < 16,
                u == t - 8,
        ;
    } else {
        let u: u32 = (t - 16) as u32;
        assert(((w >> t) & 1u32 == 1u32) == ((b2 >> (u as u8)) & 1u8 == 1u8)) by (bit_vector)
            requires
                w == (b0 as u32) | ((b1 as u32) << 8u32) | ((b2 as u32) << 16u32),
                16 <= t < 24,
                u == t - 16,
        ;
    }
}

/// The S.Bus packing: bit `j` of channel `i` is bit `11 * i + j` of the
/// channel data (bytes 1 to 22 of the frame), counting each byte from its
/// least significant bit.
pub proof fn lemma_sbus_channel_bits(f: Seq<u8>, i: int, j: int)
    requires
        is_sbus_frame(f),
        0 <= i < 16,
        0 <= j < 11,
    ensures
        ((sbus_channel(f, i) >> (j as u16)) & 1u16 == 1u16) == ((f[1 + (11 * i + j) / 8] >> (((11 * i
            + j) % 8) as u8)) & 1u8 == 1u8),
        sbus_channel(f, i) < 2048,
{
    let q = (11 * i) / 8;
    let s = (11 * i) % 8;
    let k = 1 + q;
    let t: u32 = (s + j) as u32;
    assert(11 * i == 8 * q + s);
    assert(k + 2 <= 23);
    lemma_window_bit(f[k], f[k + 1], f[k + 2], sbus_window(f, k), s as u32, j as u32);
    if t < 8 {
        assert((11 * i + j) / 8 == q && (11 * i + j) % 8 == t);
    } else if t < 16 {
        assert((11 * i + j) / 8 == q + 1 && (11 * i + j) % 8 == t - 8);
    } else {
        assert((11 * i + j) / 8 == q + 2 && (11 * i + j) % 8 == t - 16);
    }
    let w = sbus_window(f, k);
    let sh = s as u32;
    assert((((w >> sh) & 0x7ffu32) as u16) < 2048) by (bit_vector);
}

} // verus!
