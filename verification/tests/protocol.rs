use embedrs::bytes::{copy_range, find_byte, is_ascii_whitespace, split_ranges, trim_range};
use embedrs::control::{next_position, ControlAction, ControlState};
use embedrs::gps::{parse_rmc, RmcKind};
use embedrs::led::{argb_channels, ws2812_encode, N0, N1};
use embedrs::rc::{switch, DjiSBusPacket, SBusPacket};
use embedrs::screen::{rcv_parse, screen_frame, screen_target, ScreenLink};
use embedrs::vision::{get_mv_position, parse_vision, put_mv_positions, VisionFrame, VisionLink};

fn packet(ch: [u16; 7]) -> SBusPacket {
    let mut channels = [1024u16; 16];
    channels[..7].copy_from_slice(&ch);
    SBusPacket { channels }
}

fn rc(sw_left: i8, sw_right: i8, ch_l_hori: i16, ch_l_vert: i16) -> DjiSBusPacket {
    DjiSBusPacket { ch_l_hori, ch_l_vert, ch_r_hori: 0, ch_r_vert: 0, sw_left, sw_right }
}

#[test]
fn sbus_centred_sticks_read_zero() {
    let p = DjiSBusPacket::from(&packet([1024; 7]));
    assert_eq!(p, DjiSBusPacket::new());
}

#[test]
fn sbus_channel_order_and_switches() {
    // right hori, right vert, left vert, left hori, -, left switch, right switch
    let p = DjiSBusPacket::from(&packet([1684, 364, 1100, 900, 0, 364, 1684]));
    assert_eq!(p.ch_r_hori, 660);
    assert_eq!(p.ch_r_vert, -660);
    assert_eq!(p.ch_l_vert, 76);
    assert_eq!(p.ch_l_hori, -124);
    assert_eq!(p.sw_left, -1);
    assert_eq!(p.sw_right, 1);
}

#[test]
fn sbus_range_edges() {
    let p = DjiSBusPacket::from(&packet([2344, 0, 1024, 1024, 0, 1024, 1024]));
    assert_eq!(p.ch_r_hori, 1320);
    assert_eq!(p.ch_r_vert, -1024);
    assert_eq!(p.sw_left, 0);
    assert_eq!(p.sw_right, 0);
}

#[test]
fn switch_is_sign() {
    assert_eq!(switch(-5), -1);
    assert_eq!(switch(0), 0);
    assert_eq!(switch(660), 1);
}

#[test]
fn control_modes() {
    let mut st = ControlState::new();
    assert!(st.record_armed);
    assert_eq!(st.step(&rc(0, 0, 0, 0)), ControlAction::Manual { record_offset: false });
    assert_eq!(st.step(&rc(-1, 0, 0, 0)), ControlAction::Manual { record_offset: true });
    assert!(!st.record_armed);
    assert_eq!(st.step(&rc(-1, 0, 0, 0)), ControlAction::ManualHold);
    assert_eq!(st.step(&rc(1, 0, 0, 0)), ControlAction::Manual { record_offset: false });
    assert!(st.record_armed);
    assert_eq!(st.step(&rc(0, 1, 0, 0)), ControlAction::Vision);
    assert_eq!(st.step(&rc(-1, -1, 0, 0)), ControlAction::Stop { reset_offset: true });
    assert_eq!(st.step(&rc(0, -1, 0, 0)), ControlAction::Stop { reset_offset: false });
}

#[test]
fn record_once_per_press() {
    let mut st = ControlState::new();
    let mut records = 0;
    for _ in 0..5 {
        if st.step(&rc(-1, 0, 0, 0)) == (ControlAction::Manual { record_offset: true }) {
            records += 1;
        }
    }
    assert_eq!(records, 1);
}

#[test]
fn position_selection() {
    let mut link = ScreenLink::new();
    let mut pos = 5usize;
    // a confirmed 3 on the screen
    let _ = rcv_parse(&[3, 10], &mut link.tx_buf, &mut link.target);
    next_position(&mut pos, &mut link.target, &rc(0, 1, 0, 0));
    assert_eq!(pos, 3);
    // nothing waiting: stays
    next_position(&mut pos, &mut link.target, &rc(0, 1, 0, 0));
    assert_eq!(pos, 3);
    next_position(&mut pos, &mut link.target, &rc(0, 1, -660, 0));
    assert_eq!(pos, 2);
    next_position(&mut pos, &mut link.target, &rc(0, 1, 660, 0));
    assert_eq!(pos, 6);
    next_position(&mut pos, &mut link.target, &rc(0, 1, 0, 660));
    assert_eq!(pos, 9);
    next_position(&mut pos, &mut link.target, &rc(-1, 1, 0, 0));
    assert_eq!(pos, 5);
    // the stick overrides the screen and the switch
    let _ = rcv_parse(&[7, 10], &mut link.tx_buf, &mut link.target);
    next_position(&mut pos, &mut link.target, &rc(-1, 1, 0, 660));
    assert_eq!(pos, 9);
    // a confirmed 0 selects nothing
    let _ = rcv_parse(&[0, 10], &mut link.tx_buf, &mut link.target);
    next_position(&mut pos, &mut link.target, &rc(0, 1, 0, 0));
    assert_eq!(pos, 9);
}

const PREFIX: &[u8] = b"main.t0.txt=\"C: ";

fn frame(digits: &[u8]) -> Vec<u8> {
    let mut v = PREFIX.to_vec();
    v.extend_from_slice(digits);
    v.extend_from_slice(&[b'"', 0xff, 0xff, 0xff]);
    v
}

#[test]
fn screen_select_and_confirm() {
    let mut link = ScreenLink::new();
    assert_eq!(link.tx_buf, 5);
    let f = rcv_parse(&[7], &mut link.tx_buf, &mut link.target);
    assert_eq!(f, frame(b"7"));
    assert_eq!(screen_target(&mut link.target), None);
    let f = rcv_parse(&[10], &mut link.tx_buf, &mut link.target);
    assert_eq!(f, frame(b"7"));
    assert_eq!(screen_target(&mut link.target), Some(7));
    assert_eq!(screen_target(&mut link.target), None);
}

#[test]
fn screen_reset_and_last_wins() {
    let mut link = ScreenLink::new();
    let f = rcv_parse(&[2, 10, 8, 13, 42], &mut link.tx_buf, &mut link.target);
    assert_eq!(link.tx_buf, 5);
    assert_eq!(f, frame(b"5"));
    assert_eq!(screen_target(&mut link.target), Some(5));
    let f = rcv_parse(&[4, 10, 6, 10], &mut link.tx_buf, &mut link.target);
    assert_eq!(f, frame(b"6"));
    assert_eq!(screen_target(&mut link.target), Some(6));
}

#[test]
fn screen_zero_shows_nothing() {
    let mut link = ScreenLink::new();
    let f = rcv_parse(&[0], &mut link.tx_buf, &mut link.target);
    assert_eq!(f, frame(b""));
    assert_eq!(screen_frame(&[1, 2, 0, 3]), frame(b"12"));
    assert_eq!(screen_frame(&[]), frame(b""));
}

fn coords(frame: &VisionFrame) -> Vec<(usize, String, String)> {
    match frame {
        VisionFrame::Table(es) => es
            .iter()
            .map(|e| {
                (
                    e.slot,
                    String::from_utf8(e.coord.x.clone()).unwrap(),
                    String::from_utf8(e.coord.y.clone()).unwrap(),
                )
            })
            .collect(),
        VisionFrame::Points(ps) => ps
            .iter()
            .map(|p| {
                (
                    0,
                    String::from_utf8(p.x.clone()).unwrap(),
                    String::from_utf8(p.y.clone()).unwrap(),
                )
            })
            .collect(),
    }
}

#[test]
fn vision_table_line() {
    let f = parse_vision(b"xx{ (67:203), (159 : 209),bad,(1:2:3)} ");
    assert!(matches!(f, VisionFrame::Table(_)));
    assert_eq!(
        coords(&f),
        vec![
            (1, "67".to_string(), "203".to_string()),
            (2, "159 ".to_string(), " 209".to_string()),
            (4, "1".to_string(), "2:3".to_string()),
        ]
    );
}

#[test]
fn vision_empty_table() {
    let f = parse_vision(b"{}");
    assert!(matches!(&f, VisionFrame::Table(es) if es.is_empty()));
}

#[test]
fn vision_point_line() {
    let f = parse_vision(b"[12.5:40], [x], (1:2) ,[3:4]\r\n");
    assert!(matches!(f, VisionFrame::Points(_)));
    assert_eq!(
        coords(&f),
        vec![(0, "12.5".to_string(), "40".to_string()), (0, "3".to_string(), "4".to_string())]
    );
    // only one brace: a ball line
    let f = parse_vision(b"{[1:2]");
    assert!(matches!(f, VisionFrame::Points(ref ps) if ps.is_empty()));
}

#[test]
fn mv_position_latest_wins() {
    let mut link = VisionLink::new();
    assert_eq!(get_mv_position(&mut link.position), None);
    put_mv_positions(&mut link.position, &[Some((1, 2)), None, Some((3, 4)), None]);
    assert_eq!(get_mv_position(&mut link.position), Some((3, 4)));
    assert_eq!(get_mv_position(&mut link.position), None);
    put_mv_positions(&mut link.position, &[Some((5, 6))]);
    put_mv_positions(&mut link.position, &[None]);
    assert_eq!(get_mv_position(&mut link.position), Some((5, 6)));
}

#[test]
fn rmc_sentence_fields() {
    let u = parse_rmc(b"$GPRMC,235316.000,A,2959.9925,S,12000.0090,E,0.009,75.020,020711,,,A,V*45\r\n");
    let got: Vec<(RmcKind, Vec<u8>)> = u.into_iter().map(|u| (u.kind, u.text)).collect();
    assert_eq!(
        got,
        vec![
            (RmcKind::Status, b"A".to_vec()),
            (RmcKind::Latitude, b"2959.9925".to_vec()),
            (RmcKind::LatHemisphere, b"S".to_vec()),
            (RmcKind::Longitude, b"12000.0090".to_vec()),
            (RmcKind::LonHemisphere, b"E".to_vec()),
            (RmcKind::Speed, b"0.009".to_vec()),
        ]
    );
}

#[test]
fn rmc_skips_other_and_incomplete() {
    assert!(parse_rmc(b"$GPGGA,1,2,3,4,5,6,7\r\n").is_empty());
    assert!(parse_rmc(b"$GPRMC,1,A,2,N,3,E,4").is_empty());
    assert!(parse_rmc(b"").is_empty());
    let u = parse_rmc(b"junk$GNRMC,1,AV,,NN,x,E\r\n$GPRMC,,V\r\n");
    let got: Vec<(RmcKind, Vec<u8>)> = u.into_iter().map(|u| (u.kind, u.text)).collect();
    assert_eq!(
        got,
        vec![
            (RmcKind::Latitude, b"".to_vec()),
            (RmcKind::Longitude, b"x".to_vec()),
            (RmcKind::LonHemisphere, b"E".to_vec()),
            (RmcKind::Status, b"V".to_vec()),
        ]
    );
}

#[test]
fn rmc_two_reads_at_dollar() {
    let a: &[u8] = b"$GPRMC,1,A,1.5,N\r\n";
    let b: &[u8] = b"GPRMC,2,V,,S\r\n";
    let mut whole = a.to_vec();
    whole.push(b'$');
    whole.extend_from_slice(b);
    let joined: Vec<(RmcKind, Vec<u8>)> =
        parse_rmc(&whole).into_iter().map(|u| (u.kind, u.text)).collect();
    let mut parts: Vec<(RmcKind, Vec<u8>)> =
        parse_rmc(a).into_iter().map(|u| (u.kind, u.text)).collect();
    parts.extend(parse_rmc(b).into_iter().map(|u| (u.kind, u.text)));
    assert_eq!(joined, parts);
}

#[test]
fn ws2812_pattern() {
    let buf = ws2812_encode(0x80, 0x01, 0xA5);
    assert_eq!(buf.len(), 24);
    assert_eq!(buf[0], N1);
    assert!(buf[1..8].iter().all(|&b| b == N0));
    assert!(buf[8..15].iter().all(|&b| b == N0));
    assert_eq!(buf[15], N1);
    assert_eq!(&buf[16..24], &[N1, N0, N1, N0, N0, N1, N0, N1]);
}

#[test]
fn argb_split() {
    assert_eq!(argb_channels(0xFF0000FF), (0xFF, 0x00, 0x00, 0xFF));
    assert_eq!(argb_channels(0x12345678), (0x12, 0x34, 0x56, 0x78));
}

#[test]
fn byte_helpers() {
    let s = b" \tab, c ,\r\n";
    let (a, b) = trim_range(s, 0, s.len());
    assert_eq!(&s[a..b], b"ab, c ,");
    let r = split_ranges(s, a, b, b',');
    let pieces: Vec<&[u8]> = r.iter().map(|&(x, y)| &s[x..y]).collect();
    assert_eq!(pieces, vec![&b"ab"[..], &b" c "[..], &b""[..]]);
    assert_eq!(find_byte(s, 0, s.len(), b','), 4);
    assert_eq!(find_byte(s, 0, s.len(), b'z'), s.len());
    let (a, b) = trim_range(b"   ", 0, 3);
    assert_eq!(a, b);
}

#[test]
fn byte_classes_and_copies() {
    for b in 0u8..=255 {
        assert_eq!(is_ascii_whitespace(b), b.is_ascii_whitespace());
    }
    assert_eq!(copy_range(b"hello", 1, 4), b"ell".to_vec());
    assert!(copy_range(b"hello", 2, 2).is_empty());
    let r = split_ranges(b"", 0, 0, b',');
    assert_eq!(r, vec![(0, 0)]);
    let s = b",,";
    let r = split_ranges(s, 0, 2, b',');
    assert_eq!(r, vec![(0, 0), (1, 1), (2, 2)]);
}
