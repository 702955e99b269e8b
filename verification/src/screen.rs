//! The serial-screen protocol: the screen sends single bytes (a digit 0..=9
//! selects a number, 10 confirms it, 13 resets to 5), the board answers with
//! a text-update command that shows the selected number.

use crate::bytes::position_spec;
use crate::bytes::find_byte;
use crate::signal::{TargetSignal, target_slot};
use vstd::prelude::*;

verus! {

/// The byte that confirms the selected number.
pub const CONFIRM: u8 = 10;

/// The byte that resets the selection to `RESET_TARGET`.
pub const RESET: u8 = 13;

/// The number selected after a reset, and at start.
pub const RESET_TARGET: u8 = 5;

/// The screen side of the board: the number selected so far and the signal
/// that hands confirmed numbers to the controller.
pub struct ScreenLink {
    pub tx_buf: u8,
    pub target: TargetSignal,
}

/// The selected number after one received byte.
pub open spec fn screen_tx_step(tx: u8, b: u8) -> u8 {
    if b == RESET {
        RESET_TARGET
    } else if b <= 9 {
        b
    } else {
        tx
    }
}

/// The selected number after the bytes `bytes`, starting from `tx`.
pub open spec fn screen_tx_after(tx: u8, bytes: Seq<u8>) -> u8
    decreases bytes.len(),
{
    if bytes.len() == 0 {
        tx
    } else {
        screen_tx_step(screen_tx_after(tx, bytes.drop_last()), bytes.last())
    }
}

/// What the target signal holds after the bytes `bytes`, starting from the
/// selected number `tx` and the held value `slot`: each confirm signals the
/// selected number, each reset signals `RESET_TARGET`, the last one wins.
pub open spec fn screen_signal_after(tx: u8, slot: Seq<u8>, bytes: Seq<u8>) -> Seq<u8>
    decreases bytes.len(),
{
    if bytes.len() == 0 {
        slot
    } else if bytes.last() == CONFIRM {
        seq![screen_tx_after(tx, bytes.drop_last())]
    } else if bytes.last() == RESET {
        seq![RESET_TARGET]
    } else {
        screen_signal_after(tx, slot, bytes.drop_last())
    }
}

/// The text-update command's fixed start: `main.t0.txt="C: `.
pub open spec fn screen_prefix() -> Seq<u8> {
    seq![
        0x6du8, 0x61u8, 0x69u8, 0x6eu8, 0x2eu8, 0x74u8, 0x30u8, 0x2eu8,
        0x74u8, 0x78u8, 0x74u8, 0x3du8, 0x22u8, 0x43u8, 0x3au8, 0x20u8,
    ]
}

/// The command's end: a closing quote and three 0xff bytes.
pub open spec fn screen_suffix() -> Seq<u8> {
    seq![0x22u8, 0xffu8, 0xffu8, 0xffu8]
}

/// The ASCII digit of a number.
pub open spec fn ascii_digit(d: u8) -> u8 {
    (d + 0x30) as u8
}

/// The shown characters: the numbers before the first 0 of `data`, each as
/// its ASCII digit.
pub open spec fn screen_digits(data: Seq<u8>) -> Seq<u8> {
    data.take(position_spec(data, 0) as int).map_values(|d: u8| ascii_digit(d))
}

/// The whole command that shows `data`.
pub open spec fn screen_frame_spec(data: Seq<u8>) -> Seq<u8> {
    screen_prefix() + screen_digits(data) + screen_suffix()
}

/// Whether every number before the first 0 of `data` has an ASCII digit
/// within a byte.
pub open spec fn screen_writable(data: Seq<u8>) -> bool {
    forall|k: int| 0 <= k < position_spec(data, 0) ==> #[trigger] data[k] <= 207
}

impl ScreenLink {
    /// The state at start: number 5 selected, nothing signaled.
    pub fn new() -> (s: ScreenLink)
        ensures
            s.tx_buf == RESET_TARGET,
            target_slot(s.target) == Seq::<u8>::empty(),
    {
        ScreenLink { tx_buf: RESET_TARGET, target: TargetSignal::new() }
    }
}

/// The bytes of the text-update command that shows `data` on the screen.
pub fn screen_frame(data: &[u8]) -> (frame: Vec<u8>)
    requires
        screen_writable(data@),
    ensures
        frame@ == screen_frame_spec(data@),
{
    let mut out: Vec<u8> = vec![
        0x6d, 0x61, 0x69, 0x6e, 0x2e, 0x74, 0x30, 0x2e,
        0x74, 0x78, 0x74, 0x3d, 0x22, 0x43, 0x3a, 0x20,
    ];
    assert(out@ =~= screen_prefix());
    let end = find_byte(data, 0, data.len(), 0);
    assert(data@.subrange(0, data@.len() as int) =~= data@);
    let mut i: usize = 0;
    while i < end
        invariant
            0 <= i <= end <= data@.len(),
            end == position_spec(data@, 0),
            screen_writable(data@),
            out@ == screen_prefix() + data@.take(i as int).map_values(|d: u8| ascii_digit(d)),
        decreases end - i,
    {
        let d = data[i];
        assert(d <= 207);
        out.push(d + 0x30);
        assert(data@.take(i + 1) =~= data@.take(i as int).push(d));
        assert(data@.take(i + 1).map_values(|d: u8| ascii_digit(d)) =~= data@.take(
            i as int,
        ).map_values(|d: u8| ascii_digit(d)).push(ascii_digit(d)));
        i = i + 1;
    }
    out.push(0x22);
    out.push(0xff);
    out.push(0xff);
    out.push(0xff);
    assert(out@ =~= screen_frame_spec(data@));
    out
}

/// Handles the bytes received from the screen: updates the selected number,
/// signals confirmed numbers to the controller, and returns the command that
/// shows the selected number.
pub fn rcv_parse(rcv: &[u8], tx_buf: &mut u8, target: &mut TargetSignal) -> (frame: Vec<u8>)
    requires
        screen_tx_after(*old(tx_buf), rcv@) <= 207,
    ensures
        *final(tx_buf) == screen_tx_after(*old(tx_buf), rcv@),
        target_slot(*final(target)) == screen_signal_after(
            *old(tx_buf),
            target_slot(*old(target)),
            rcv@,
        ),
        frame@ == screen_frame_spec(seq![*final(tx_buf)]),
{
    let ghost tx0 = *tx_buf;
    let ghost slot0 = target_slot(*target);
    let mut i: usize = 0;
    assert(rcv@.take(0) =~= Seq::<u8>::empty());
    while i < rcv.len()
        invariant
            0 <= i <= rcv@.len(),
            *tx_buf == screen_tx_after(tx0, rcv@.take(i as int)),
            target_slot(*target) == screen_signal_after(tx0, slot0, rcv@.take(i as int)),
        decreases rcv@.len() - i,
    {
        let data = rcv[i];
        assert(rcv@.take(i + 1).drop_last() =~= rcv@.take(i as int));
        if data == CONFIRM {
            target.signal(*tx_buf);
        } else if data == RESET {
            *tx_buf = RESET_TARGET;
            target.signal(*tx_buf);
        } else if data <= 9 {
            *tx_buf = data;
        }
        i = i + 1;
    }
    assert(rcv@.take(rcv@.len() as int) =~= rcv@);
    let shown = [*tx_buf];
    assert(shown@ =~= seq![*tx_buf]);
    proof {
        if *tx_buf == 0 {
            assert(position_spec(shown@, 0) == 0);
        } else {
            assert(shown@.drop_first() =~= Seq::<u8>::empty());
            assert(position_spec(shown@.drop_first(), 0) == 0);
            assert(position_spec(shown@, 0) == 1);
        }
    }
    screen_frame(&shown)
}

/// Takes the number last confirmed on the screen, if one is waiting.
pub fn screen_target(target: &mut TargetSignal) -> (r: Option<u8>)
    ensures
        target_slot(*old(target)).len() == 0 ==> r is None,
        target_slot(*old(target)).len() > 0 ==> r == Some(target_slot(*old(target))[0]),
        target_slot(*final(target)) == Seq::<u8>::empty(),
{
    target.try_take()
}

/// The selected number stays a number from 0 to 9 whatever the screen sends.
pub proof fn lemma_selection_stays_digit(tx: u8, bytes: Seq<u8>)
    requires
        tx <= 9,
    ensures
        screen_tx_after(tx, bytes) <= 9,
    decreases bytes.len(),
{
    if bytes.len() > 0 {
        lemma_selection_stays_digit(tx, bytes.drop_last());
    }
}

/// Bytes received in two reads act as the same bytes received in one.
pub proof fn lemma_screen_reads_compose(tx: u8, slot: Seq<u8>, a: Seq<u8>, b: Seq<u8>)
    ensures
        screen_tx_after(tx, a + b) == screen_tx_after(screen_tx_after(tx, a), b),
        screen_signal_after(tx, slot, a + b) == screen_signal_after(
            screen_tx_after(tx, a),
            screen_signal_after(tx, slot, a),
            b,
        ),
    decreases b.len(),
{
    if b.len() == 0 {
        assert(a + b =~= a);
    } else {
        lemma_screen_reads_compose(tx, slot, a, b.drop_last());
        assert((a + b).drop_last() =~= a + b.drop_last());
        assert((a + b).last() == b.last());
    }
}

/// A digit byte `d` (0 to 9) selects `d` and signals nothing; a confirm
/// (10) right after it signals `d`.
pub proof fn lemma_digit_selects(tx: u8, slot: Seq<u8>, bytes: Seq<u8>, d: u8)
    requires
        d <= 9,
    ensures
        screen_tx_after(tx, bytes.push(d)) == d,
        screen_signal_after(tx, slot, bytes.push(d)) == screen_signal_after(tx, slot, bytes),
        screen_tx_after(tx, bytes.push(d).push(10u8)) == d,
        screen_signal_after(tx, slot, bytes.push(d).push(10u8)) == seq![d],
{
    assert(bytes.push(d).drop_last() =~= bytes);
    assert(screen_tx_after(tx, bytes.push(d)) == d);
    let bd = bytes.push(d);
    assert(bd.push(10u8).drop_last() =~= bd);
    assert(bd.push(10u8).last() == 10u8);
    assert(screen_tx_after(tx, bd.push(10u8)) == screen_tx_step(screen_tx_after(tx, bd), 10u8));
}

/// A confirm (10) signals the number selected so far and keeps it; a reset
/// (13) selects 5 and signals 5; any other byte above 9 changes nothing.
pub proof fn lemma_control_bytes(tx: u8, slot: Seq<u8>, bytes: Seq<u8>, b: u8)
    ensures
        screen_tx_after(tx, bytes.push(10u8)) == screen_tx_after(tx, bytes),
        screen_signal_after(tx, slot, bytes.push(10u8)) == seq![screen_tx_after(tx, bytes)],
        screen_tx_after(tx, bytes.push(13u8)) == 5,
        screen_signal_after(tx, slot, bytes.push(13u8)) == seq![5u8],
        b > 9 && b != 10 && b != 13 ==> screen_tx_after(tx, bytes.push(b)) == screen_tx_after(
            tx,
            bytes,
        ) && screen_signal_after(tx, slot, bytes.push(b)) == screen_signal_after(tx, slot, bytes),
{
    assert(bytes.push(10u8).drop_last() =~= bytes);
    assert(bytes.push(13u8).drop_last() =~= bytes);
    assert(bytes.push(b).drop_last() =~= bytes);
}

/// The command that shows a selected number `d`: `main.t0.txt="C: ` then
/// the digit of `d` (none for 0), a closing quote and three 0xff bytes.
pub proof fn lemma_frame_of_selection(d: u8)
    requires
        d <= 9,
    ensures
        screen_frame_spec(seq![d]) == seq![
            0x6du8, 0x61u8, 0x69u8, 0x6eu8, 0x2eu8, 0x74u8, 0x30u8, 0x2eu8,
            0x74u8, 0x78u8, 0x74u8, 0x3du8, 0x22u8, 0x43u8, 0x3au8, 0x20u8,
        ] + (if d == 0 {
            Seq::<u8>::empty()
        } else {
            seq![(0x30 + d) as u8]
        }) + seq![0x22u8, 0xffu8, 0xffu8, 0xffu8],
{
    let s = seq![d];
    if d == 0 {
        assert(position_spec(s, 0) == 0);
        assert(screen_digits(s) =~= Seq::<u8>::empty());
    } else {
        assert(s.drop_first() =~= Seq::<u8>::empty());
        assert(position_spec(s.drop_first(), 0) == 0);
        assert(position_spec(s, 0) == 1);
        assert(s.take(1) =~= s);
        assert(screen_digits(s) =~= seq![(0x30 + d) as u8]);
    }
    assert(screen_prefix() =~= seq![
        0x6du8, 0x61u8, 0x69u8, 0x6eu8, 0x2eu8, 0x74u8, 0x30u8, 0x2eu8,
        0x74u8, 0x78u8, 0x74u8, 0x3du8, 0x22u8, 0x43u8, 0x3au8, 0x20u8,
    ]);
}

} // verus!
