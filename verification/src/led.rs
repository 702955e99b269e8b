//! Colour handling for the status LEDs: splitting a packed colour into its
//! channels and the bit pattern that drives a WS2812 LED over SPI.
//!
//! Each WS2812 data bit is sent as one SPI byte: `N1` for a one, `N0` for a
//! zero; a colour is 24 such bytes, green, red and blue, most significant
//! bit first.

use vstd::prelude::*;

verus! {

/// The number of SPI bytes that carry one colour.
pub const WS2812_GRB_SIZE: usize = 24;

/// The SPI byte that sends a WS2812 zero bit.
pub const N0: u8 = 0b11000000u8;

/// The SPI byte that sends a WS2812 one bit.
pub const N1: u8 = 0b11111100u8;

/// Bit `7 - i` of `c`: the `i`-th bit sent, most significant first.
pub open spec fn sent_bit(c: u8, i: int) -> bool {
    (c >> ((7 - i) as u8)) & 1u8 == 1u8
}

/// The SPI byte for a data bit.
pub open spec fn symbol(bit: bool) -> u8 {
    if bit {
        N1
    } else {
        N0
    }
}

/// The colour channel that byte `j` of the pattern belongs to.
pub open spec fn channel_at(green: u8, red: u8, blue: u8, j: int) -> u8 {
    if j < 8 {
        green
    } else if j < 16 {
        red
    } else {
        blue
    }
}

/// The 24 SPI bytes that send a colour.
pub open spec fn ws2812_spec(green: u8, red: u8, blue: u8) -> Seq<u8> {
    Seq::new(24, |j: int| symbol(sent_bit(channel_at(green, red, blue, j), j % 8)))
}

fn push_channel(buffer: &mut Vec<u8>, color: u8)
    ensures
        final(buffer)@.len() == old(buffer)@.len() + 8,
        forall|j: int| 0 <= j < old(buffer)@.len() ==> final(buffer)@[j] == old(buffer)@[j],
        forall|i: int| 0 <= i < 8 ==> #[trigger] final(buffer)@[old(buffer)@.len() + i] == symbol(sent_bit(color, i)),
{
    let ghost start = buffer@.len();
    let mut i: u8 = 0;
    while i < 8
        invariant
            0 <= i <= 8,
            buffer@.len() == start + i,
            forall|j: int| 0 <= j < start ==> buffer@[j] == old(buffer)@[j],
            forall|k: int| 0 <= k < i ==> #[trigger] buffer@[start + k] == symbol(sent_bit(color, k)),
        decreases 8 - i,
    {
        let shift: u8 = 7 - i;
        let bit = (color >> shift) & 1;
        buffer.push(if bit != 0 { N1 } else { N0 });
        assert(bit != 0 <==> (color >> shift) & 1u8 == 1u8) by (bit_vector)
            requires
                bit == (color >> shift) & 1,
        ;
        assert(sent_bit(color, i as int) == ((color >> shift) & 1u8 == 1u8));
        i = i + 1;
    }
}

/// The 24 SPI bytes that set a WS2812 LED to a colour.
pub fn ws2812_encode(green: u8, red: u8, blue: u8) -> (buffer: Vec<u8>)
    ensures
        buffer@ == ws2812_spec(green, red, blue),
{
    let mut buffer: Vec<u8> = Vec::new();
    push_channel(&mut buffer, green);
    push_channel(&mut buffer, red);
    push_channel(&mut buffer, blue);
    assert forall|j: int| 0 <= j < 24 implies buffer@[j] == symbol(
        sent_bit(channel_at(green, red, blue, j), j % 8),
    ) by {
        if j < 8 {
            assert(buffer@[0 + j] == symbol(sent_bit(green, j)));
        } else if j < 16 {
            assert(buffer@[8 + (j - 8)] == symbol(sent_bit(red, j - 8)));
        } else {
            assert(buffer@[16 + (j - 16)] == symbol(sent_bit(blue, j - 16)));
        }
    }
    assert(buffer@ =~= ws2812_spec(green, red, blue));
    buffer
}

/// The alpha, red, green and blue channels of a colour packed as
/// `0xAARRGGBB`.
pub fn argb_channels(c: u32) -> (r: (u8, u8, u8, u8))
    ensures
        r.0 == c / 0x1000000,
        r.1 == (c / 0x10000) % 0x100,
        r.2 == (c / 0x100) % 0x100,
        r.3 == c % 0x100,
        r.0 * 0x1000000 + r.1 * 0x10000 + r.2 * 0x100 + r.3 == c,
{
    let a = ((c & 0xFF000000) >> 24) as u8;
    let r = ((c & 0x00FF0000) >> 16) as u8;
    let g = ((c & 0x0000FF00) >> 8) as u8;
    let b = (c & 0x000000FF) as u8;
    assert(((c & 0xFF000000) >> 24) == c / 0x1000000) by (bit_vector);
    assert(((c & 0x00FF0000) >> 16) == (c / 0x10000) % 0x100) by (bit_vector);
    assert(((c & 0x0000FF00) >> 8) == (c / 0x100) % 0x100) by (bit_vector);
    assert((c & 0x000000FF) == c % 0x100) by (bit_vector);
    assert((c / 0x1000000) * 0x1000000 + ((c / 0x10000) % 0x100) * 0x10000 + ((c / 0x100) % 0x100)
        * 0x100 + c % 0x100 == c) by (nonlinear_arith);
    (a, r, g, b)
}

/// Different colours give different bit patterns, so a WS2812 LED receives
/// exactly the colour encoded.
pub proof fn lemma_ws2812_injective(g1: u8, r1: u8, b1: u8, g2: u8, r2: u8, b2: u8)
    requires
        ws2812_spec(g1, r1, b1) == ws2812_spec(g2, r2, b2),
    ensures
        g1 == g2,
        r1 == r2,
        b1 == b2,
{
    let s1 = ws2812_spec(g1, r1, b1);
    let s2 = ws2812_spec(g2, r2, b2);
    assert forall|i: int| 0 <= i < 8 implies sent_bit(g1, i) == sent_bit(g2, i)
        && sent_bit(r1, i) == sent_bit(r2, i) && sent_bit(b1, i) == sent_bit(b2, i) by {
        assert(s1[i] == s2[i]);
        assert(s1[8 + i] == s2[8 + i]);
        assert(s1[16 + i] == s2[16 + i]);
        assert((8 + i) % 8 == i);
        assert((16 + i) % 8 == i);
    }
    lemma_bits_determine(g1, g2);
    lemma_bits_determine(r1, r2);
    lemma_bits_determine(b1, b2);
}

proof fn lemma_bits_determine(a: u8, b: u8)
    requires
        forall|i: int| 0 <= i < 8 ==> sent_bit(a, i) == sent_bit(b, i),
    ensures
        a == b,
{
    assert(sent_bit(a, 0) == sent_bit(b, 0));
    assert(sent_bit(a, 1) == sent_bit(b, 1));
    assert(sent_bit(a, 2) == sent_bit(b, 2));
    assert(sent_bit(a, 3) == sent_bit(b, 3));
    assert(sent_bit(a, 4) == sent_bit(b, 4));
    assert(sent_bit(a, 5) == sent_bit(b, 5));
    assert(sent_bit(a, 6) == sent_bit(b, 6));
    assert(sent_bit(a, 7) == sent_bit(b, 7));
    assert(a == b) by (bit_vector)
        requires
            ((a >> 7u8) & 1u8 == 1u8) == ((b >> 7u8) & 1u8 == 1u8),
            ((a >> 6u8) & 1u8 == 1u8) == ((b >> 6u8) & 1u8 == 1u8),
            ((a >> 5u8) & 1u8 == 1u8) == ((b >> 5u8) & 1u8 == 1u8),
            ((a >> 4u8) & 1u8 == 1u8) == ((b >> 4u8) & 1u8 == 1u8),
            ((a >> 3u8) & 1u8 == 1u8) == ((b >> 3u8) & 1u8 == 1u8),
            ((a >> 2u8) & 1u8 == 1u8) == ((b >> 2u8) & 1u8 == 1u8),
            ((a >> 1u8) & 1u8 == 1u8) == ((b >> 1u8) & 1u8 == 1u8),
            ((a >> 0u8) & 1u8 == 1u8) == ((b >> 0u8) & 1u8 == 1u8),
    ;
}

/// The weight of the `i`-th bit sent, most significant first.
pub open spec fn bit_weight(i: int) -> int {
    if i == 0 {
        128
    } else if i == 1 {
        64
    } else if i == 2 {
        32
    } else if i == 3 {
        16
    } else if i == 4 {
        8
    } else if i == 5 {
        4
    } else if i == 6 {
        2
    } else {
        1
    }
}

proof fn lemma_sent_bit_weight(c: u8, i: int)
    requires
        0 <= i < 8,
    ensures
        sent_bit(c, i) == ((c as int / bit_weight(i)) % 2 == 1),
{
    if i == 0 {
        assert(((c >> 7u8) & 1u8 == 1u8) == ((c / 128) % 2 == 1)) by (bit_vector);
    } else if i == 1 {
        assert(((c >> 6u8) & 1u8 == 1u8) == ((c / 64) % 2 == 1)) by (bit_vector);
    } else if i == 2 {
        assert(((c >> 5u8) & 1u8 == 1u8) == ((c / 32) % 2 == 1)) by (bit_vector);
    } else if i == 3 {
        assert(((c >> 4u8) & 1u8 == 1u8) == ((c / 16) % 2 == 1)) by (bit_vector);
    } else if i == 4 {
        assert(((c >> 3u8) & 1u8 == 1u8) == ((c / 8) % 2 == 1)) by (bit_vector);
    } else if i == 5 {
        assert(((c >> 2u8) & 1u8 == 1u8) == ((c / 4) % 2 == 1)) by (bit_vector);
    } else if i == 6 {
        assert(((c >> 1u8) & 1u8 == 1u8) == ((c / 2) % 2 == 1)) by (bit_vector);
    } else {
        assert(((c >> 0u8) & 1u8 == 1u8) == (c % 2 == 1)) by (bit_vector);
    }
}

/// The pattern sends green, then red, then blue, each most significant bit
/// first: byte `8 * n + i` is `0b11111100` when bit `7 - i` of the n-th
/// colour is set and `0b11000000` otherwise.
pub proof fn lemma_ws2812_order(green: u8, red: u8, blue: u8)
    ensures
        ws2812_spec(green, red, blue).len() == 24,
        forall|i: int|
            0 <= i < 8 ==> #[trigger] ws2812_spec(green, red, blue)[i] == (if (green as int
                / bit_weight(i)) % 2 == 1 {
                0b11111100u8
            } else {
                0b11000000u8
            }),
        forall|i: int|
            0 <= i < 8 ==> #[trigger] ws2812_spec(green, red, blue)[8 + i] == (if (red as int
                / bit_weight(i)) % 2 == 1 {
                0b11111100u8
            } else {
                0b11000000u8
            }),
        forall|i: int|
            0 <= i < 8 ==> #[trigger] ws2812_spec(green, red, blue)[16 + i] == (if (blue as int
                / bit_weight(i)) % 2 == 1 {
                0b11111100u8
            } else {
                0b11000000u8
            }),
{
    assert forall|i: int| 0 <= i < 8 implies #[trigger] ws2812_spec(green, red, blue)[i] == (if (
    green as int / bit_weight(i)) % 2 == 1 {
        0b11111100u8
    } else {
        0b11000000u8
    }) by {
        lemma_sent_bit_weight(green, i);
    }
    assert forall|i: int| 0 <= i < 8 implies #[trigger] ws2812_spec(green, red, blue)[8 + i] == (
    if (red as int / bit_weight(i)) % 2 == 1 {
        0b11111100u8
    } else {
        0b11000000u8
    }) by {
        lemma_sent_bit_weight(red, i);
        assert((8 + i) % 8 == i);
    }
    assert forall|i: int| 0 <= i < 8 implies #[trigger] ws2812_spec(green, red, blue)[16 + i] == (
    if (blue as int / bit_weight(i)) % 2 == 1 {
        0b11111100u8
    } else {
        0b11000000u8
    }) by {
        lemma_sent_bit_weight(blue, i);
        assert((16 + i) % 8 == i);
    }
}

} // verus!
