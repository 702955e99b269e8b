use embedrs::led::{argb_channels, ws2812_encode};
use embedrs::rc::{channels_ok, decode_sbus_frame, DjiSBusPacket, SBusPacket};
use embedrs::screen::{rcv_parse, screen_target, ScreenLink};
use embedrs::vision::{parse_vision, VisionFrame};

#[test]
fn selection_stays_digit() {
    let mut link = ScreenLink::new();
    let noise: Vec<u8> = (0u8..=255).rev().collect();
    let _ = rcv_parse(&noise, &mut link.tx_buf, &mut link.target);
    assert!(link.tx_buf <= 9);
    assert_eq!(link.tx_buf, 0);
    for chunk in noise.chunks(7) {
        let _ = rcv_parse(chunk, &mut link.tx_buf, &mut link.target);
        assert!(link.tx_buf <= 9);
    }
}

#[test]
fn screen_reads_compose() {
    let bytes = [4u8, 10, 200, 8, 13, 2, 10, 9];
    let mut one = ScreenLink::new();
    let f1 = rcv_parse(&bytes, &mut one.tx_buf, &mut one.target);
    for cut in 0..=bytes.len() {
        let mut two = ScreenLink::new();
        let _ = rcv_parse(&bytes[..cut], &mut two.tx_buf, &mut two.target);
        let f2 = rcv_parse(&bytes[cut..], &mut two.tx_buf, &mut two.target);
        assert_eq!(f1, f2);
        assert_eq!(one.tx_buf, two.tx_buf);
        assert_eq!(screen_target(&mut two.target), Some(2));
    }
    assert_eq!(screen_target(&mut one.target), Some(2));
}

#[test]
fn table_slots_increase_from_one() {
    match parse_vision(b"{(1:1),x,(2:2),,(3:3)}") {
        VisionFrame::Table(es) => {
            let slots: Vec<usize> = es.iter().map(|e| e.slot).collect();
            assert_eq!(slots, vec![1, 3, 5]);
        }
        VisionFrame::Points(_) => panic!("a table line"),
    }
}

#[test]
fn ws2812_distinct_colours_distinct_patterns() {
    assert_ne!(ws2812_encode(1, 2, 3), ws2812_encode(1, 2, 4));
    assert_ne!(ws2812_encode(0, 0, 0), ws2812_encode(0, 1, 0));
    assert_eq!(ws2812_encode(7, 8, 9), ws2812_encode(7, 8, 9));
}

#[test]
fn argb_recomposes() {
    for c in [0u32, 0xFFFF0000, 0x00FF00FF, 0xDEADBEEF, u32::MAX] {
        let (a, r, g, b) = argb_channels(c);
        assert_eq!(((a as u32) << 24) | ((r as u32) << 16) | ((g as u32) << 8) | b as u32, c);
    }
}

fn sbus_encode(ch: &[u16; 16]) -> Vec<u8> {
    let mut f = vec![0u8; 25];
    f[0] = 0x0f;
    for (i, &v) in ch.iter().enumerate() {
        for j in 0..11 {
            if v >> j & 1 == 1 {
                let bit = 11 * i + j;
                f[1 + bit / 8] |= 1 << (bit % 8);
            }
        }
    }
    f
}

#[test]
fn sbus_frame_decodes() {
    let mut ch = [1024u16; 16];
    ch[0] = 1684;
    ch[1] = 364;
    ch[5] = 364;
    ch[6] = 1684;
    ch[15] = 2047;
    let frame = sbus_encode(&ch);
    let p = decode_sbus_frame(&frame).expect("a frame");
    assert_eq!(p.channels, ch);
    assert!(channels_ok(&p));
    let rc = DjiSBusPacket::from(&p);
    assert_eq!((rc.ch_r_hori, rc.ch_r_vert, rc.sw_left, rc.sw_right), (660, -660, -1, 1));
}

#[test]
fn sbus_rejects_non_frames() {
    let frame = sbus_encode(&[1024u16; 16]);
    assert!(decode_sbus_frame(&frame[..24]).is_none());
    let mut bad = frame.clone();
    bad[0] = 0x0e;
    assert!(decode_sbus_frame(&bad).is_none());
    let mut bad = frame.clone();
    bad[24] = 0x04;
    assert!(decode_sbus_frame(&bad).is_none());
}

#[test]
fn channel_check_matches_range() {
    let mut c = [1024u16; 16];
    assert!(channels_ok(&SBusPacket { channels: c }));
    c[3] = 2345;
    assert!(!channels_ok(&SBusPacket { channels: c }));
    c[3] = 2344;
    assert!(channels_ok(&SBusPacket { channels: c }));
    c[2] = 40000;
    assert!(!channels_ok(&SBusPacket { channels: c }));
}
