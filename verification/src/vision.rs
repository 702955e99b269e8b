//! The camera's line format.  A line either updates the table of target
//! positions, `{(x:y),(x:y),...}` (the n-th item sets table entry n + 1), or
//! reports the ball, `[x:y]` items separated by commas.  The numbers are left
//! as text for the caller to read.

use crate::bytes::{
    all_ascii_ws, lemma_position_at, lemma_trim_surrounding,
    copy_range, find_byte, position_spec, ranges_view, split_ranges, split_spec, trim_range, trim_spec,
};
use crate::signal::{PositionSignal, position_slot};
use vstd::prelude::*;

verus! {

/// The text of one coordinate pair.
pub struct CoordText {
    pub x: Vec<u8>,
    pub y: Vec<u8>,
}

/// One item of a table line: the table entry it sets and its coordinates.
pub struct TableEntry {
    pub slot: usize,
    pub coord: CoordText,
}

/// What a camera line holds.
pub enum VisionFrame {
    /// New coordinates for entries of the table of target positions.
    Table(Vec<TableEntry>),
    /// Ball positions, the last one the latest.
    Points(Vec<CoordText>),
}

impl View for CoordText {
    type V = (Seq<u8>, Seq<u8>);

    open spec fn view(&self) -> (Seq<u8>, Seq<u8>) {
        (self.x@, self.y@)
    }
}

impl View for TableEntry {
    type V = (nat, Seq<u8>, Seq<u8>);

    open spec fn view(&self) -> (nat, Seq<u8>, Seq<u8>) {
        (self.slot as nat, self.coord.x@, self.coord.y@)
    }
}

/// The holder of the signal that hands ball positions to the controller.
pub struct VisionLink {
    pub position: PositionSignal,
}

/// The coordinate texts of an item `t` (already trimmed) written as
/// `open x : y close`: `x` runs to the first colon, `y` from there to the
/// closing bracket.
pub open spec fn coord_pair(t: Seq<u8>, open: u8, close: u8) -> Option<(Seq<u8>, Seq<u8>)> {
    if t.len() >= 2 && t[0] == open && t.last() == close {
        let inner = t.subrange(1, t.len() - 1);
        let k = position_spec(inner, 0x3a) as int;
        if k < inner.len() {
            Some((inner.take(k), inner.skip(k + 1)))
        } else {
            None
        }
    } else {
        None
    }
}

/// The entries of a table line's items: the item at index n, when it reads
/// `(x:y)`, sets entry n + 1.
pub open spec fn table_entries(pieces: Seq<Seq<u8>>) -> Seq<(nat, Seq<u8>, Seq<u8>)>
    decreases pieces.len(),
{
    if pieces.len() == 0 {
        Seq::empty()
    } else {
        let prev = table_entries(pieces.drop_last());
        match coord_pair(trim_spec(pieces.last()), 0x28, 0x29) {
            Some(c) => prev.push((pieces.len() as nat, c.0, c.1)),
            None => prev,
        }
    }
}

/// The positions of a ball line's items that read `[x:y]`, in order.
pub open spec fn point_entries(pieces: Seq<Seq<u8>>) -> Seq<(Seq<u8>, Seq<u8>)>
    decreases pieces.len(),
{
    if pieces.len() == 0 {
        Seq::empty()
    } else {
        let prev = point_entries(pieces.drop_last());
        match coord_pair(trim_spec(pieces.last()), 0x5b, 0x5d) {
            Some(c) => prev.push(c),
            None => prev,
        }
    }
}

/// Whether a line holds both braces, and so is a table line.
pub open spec fn is_table_line(data: Seq<u8>) -> bool {
    data.contains(0x7b) && data.contains(0x7d)
}

/// The items of a table line: the text between the first `{` and the first
/// `}`, trimmed, split at commas.
pub open spec fn table_items(data: Seq<u8>) -> Seq<Seq<u8>> {
    split_spec(
        trim_spec(
            data.subrange((position_spec(data, 0x7b) + 1) as int, position_spec(data, 0x7d) as int),
        ),
        0x2c,
    )
}

/// The lines that `parse_vision` accepts: in a table line the first `{`
/// comes before the first `}`.
pub open spec fn vision_line_valid(data: Seq<u8>) -> bool {
    is_table_line(data) ==> position_spec(data, 0x7b) < position_spec(data, 0x7d)
}

proof fn lemma_position_contains(s: Seq<u8>, b: u8, r: int)
    requires
        0 <= r <= s.len(),
        r < s.len() ==> s[r] == b,
        forall|k: int| 0 <= k < r ==> s[k] != b,
    ensures
        s.contains(b) <==> r < s.len(),
{
    if r < s.len() {
        assert(s[r] == b);
    }
}

/// The coordinates of the item `s[a..c]` when it reads `open x : y close`.
fn coord_at(s: &[u8], a: usize, c: usize, open: u8, close: u8) -> (r: Option<CoordText>)
    requires
        a <= c <= s@.len(),
    ensures
        match r {
            Some(t) => coord_pair(s@.subrange(a as int, c as int), open, close) == Some(t@),
            None => coord_pair(s@.subrange(a as int, c as int), open, close) is None,
        },
{
    let ghost t = s@.subrange(a as int, c as int);
    if c - a >= 2 && s[a] == open && s[c - 1] == close {
        let ghost inner = t.subrange(1, t.len() - 1);
        assert(inner =~= s@.subrange(a + 1, c - 1));
        let k = find_byte(s, a + 1, c - 1, 0x3a);
        if k < c - 1 {
            let x = copy_range(s, a + 1, k);
            let y = copy_range(s, k + 1, c - 1);
            assert(inner.take(k - (a + 1)) =~= s@.subrange(a + 1, k as int));
            assert(inner.skip(k - (a + 1) + 1) =~= s@.subrange(k + 1, c - 1));
            Some(CoordText { x, y })
        } else {
            None
        }
    } else {
        None
    }
}

/// Whether `parse_vision` accepts a line, as a test that callers can make.
pub fn vision_line_ok(data: &[u8]) -> (r: bool)
    ensures
        r == vision_line_valid(data@),
{
    let len = data.len();
    let f = find_byte(data, 0, len, 0x7b);
    let b = find_byte(data, 0, len, 0x7d);
    assert(data@.subrange(0, len as int) =~= data@);
    proof {
        lemma_position_contains(data@, 0x7b, f as int);
        lemma_position_contains(data@, 0x7d, b as int);
    }
    !(f < len && b < len) || f < b
}

/// Reads one camera line.
pub fn parse_vision(data: &[u8]) -> (r: VisionFrame)
    requires
        vision_line_valid(data@),
    ensures
        match r {
            VisionFrame::Table(es) => is_table_line(data@) && es@.map_values(|e: TableEntry| e@)
                == table_entries(table_items(data@)),
            VisionFrame::Points(ps) => !is_table_line(data@) && ps@.map_values(|p: CoordText| p@)
                == point_entries(split_spec(data@, 0x2c)),
        },
{
    let len = data.len();
    let f = find_byte(data, 0, len, 0x7b);
    let b = find_byte(data, 0, len, 0x7d);
    assert(data@.subrange(0, len as int) =~= data@);
    proof {
        lemma_position_contains(data@, 0x7b, f as int);
        lemma_position_contains(data@, 0x7d, b as int);
    }
    if f < len && b < len {
        let (lo, hi) = trim_range(data, f + 1, b);
        let pieces = split_ranges(data, lo, hi, 0x2c);
        let ghost items = table_items(data@);
        let mut out: Vec<TableEntry> = Vec::new();
        let mut k: usize = 0;
        assert(items.take(0) =~= Seq::<Seq<u8>>::empty());
        while k < pieces.len()
            invariant
                0 <= k <= pieces@.len(),
                pieces@.len() == items.len(),
                items == split_spec(data@.subrange(lo as int, hi as int), 0x2c),
                ranges_view(data@, pieces@) == items,
                forall|j: int| 0 <= j < pieces@.len() ==> lo <= #[trigger] pieces@[j].0 <= pieces@[j].1 <= hi,
                hi <= data@.len(),
                out@.map_values(|e: TableEntry| e@) == table_entries(items.take(k as int)),
            decreases pieces@.len() - k,
        {
            let (pa, pc) = pieces[k];
            assert(ranges_view(data@, pieces@)[k as int] == data@.subrange(pa as int, pc as int));
            let (a, c) = trim_range(data, pa, pc);
            let item = coord_at(data, a, c, 0x28, 0x29);
            assert(items.take(k + 1).drop_last() =~= items.take(k as int));
            assert(items.take(k + 1).last() == items[k as int]);
            match item {
                Some(coord) => {
                    let ghost prev = out@;
                    out.push(TableEntry { slot: k + 1, coord });
                    assert(out@.map_values(|e: TableEntry| e@) =~= prev.map_values(
                        |e: TableEntry| e@,
                    ).push(out@.last()@));
                },
                None => {},
            }
            k = k + 1;
        }
        assert(items.take(pieces@.len() as int) =~= items);
        VisionFrame::Table(out)
    } else {
        let pieces = split_ranges(data, 0, len, 0x2c);
        let ghost items = split_spec(data@, 0x2c);
        let mut out: Vec<CoordText> = Vec::new();
        let mut k: usize = 0;
        assert(items.take(0) =~= Seq::<Seq<u8>>::empty());
        while k < pieces.len()
            invariant
                0 <= k <= pieces@.len(),
                pieces@.len() == items.len(),
                ranges_view(data@, pieces@) == items,
                forall|j: int| 0 <= j < pieces@.len() ==> 0 <= #[trigger] pieces@[j].0 <= pieces@[j].1 <= len,
                len == data@.len(),
                out@.map_values(|p: CoordText| p@) == point_entries(items.take(k as int)),
            decreases pieces@.len() - k,
        {
            let (pa, pc) = pieces[k];
            assert(ranges_view(data@, pieces@)[k as int] == data@.subrange(pa as int, pc as int));
            let (a, c) = trim_range(data, pa, pc);
            let item = coord_at(data, a, c, 0x5b, 0x5d);
            assert(items.take(k + 1).drop_last() =~= items.take(k as int));
            assert(items.take(k + 1).last() == items[k as int]);
            match item {
                Some(coord) => {
                    let ghost prev = out@;
                    out.push(coord);
                    assert(out@.map_values(|p: CoordText| p@) =~= prev.map_values(
                        |p: CoordText| p@,
                    ).push(out@.last()@));
                },
                None => {},
            }
            k = k + 1;
        }
        assert(items.take(pieces@.len() as int) =~= items);
        VisionFrame::Points(out)
    }
}

/// What a take from a position signal holding `slot` gives.
pub open spec fn position_value(slot: Seq<(u16, u16)>) -> Option<(u16, u16)> {
    if slot.len() == 0 {
        None
    } else {
        Some(slot[0])
    }
}

/// What a position signal holds after signaling each reading that was read
/// in full, in order, starting from `slot`: the last such reading, or `slot`
/// when there is none.
pub open spec fn latest_reading(slot: Seq<(u16, u16)>, readings: Seq<Option<(u16, u16)>>) -> Seq<
    (u16, u16),
>
    decreases readings.len(),
{
    if readings.len() == 0 {
        slot
    } else {
        match readings.last() {
            Some(p) => seq![p],
            None => latest_reading(slot, readings.drop_last()),
        }
    }
}

impl VisionLink {
    /// No ball position waiting.
    pub fn new() -> (s: VisionLink)
        ensures
            position_slot(s.position) == Seq::<(u16, u16)>::empty(),
    {
        VisionLink { position: PositionSignal::new() }
    }
}

/// Signals, in order, the ball positions of a line that were read in full
/// (`None` marks an item whose numbers could not be read).
pub fn put_mv_positions(position: &mut PositionSignal, readings: &[Option<(u16, u16)>])
    ensures
        position_slot(*final(position)) == latest_reading(position_slot(*old(position)), readings@),
{
    let ghost slot0 = position_slot(*position);
    let mut i: usize = 0;
    assert(readings@.take(0) =~= Seq::<Option<(u16, u16)>>::empty());
    while i < readings.len()
        invariant
            0 <= i <= readings@.len(),
            position_slot(*position) == latest_reading(slot0, readings@.take(i as int)),
        decreases readings@.len() - i,
    {
        assert(readings@.take(i + 1).drop_last() =~= readings@.take(i as int));
        if let Some(p) = readings[i] {
            position.signal(p);
        }
        i = i + 1;
    }
    assert(readings@.take(readings@.len() as int) =~= readings@);
}

/// Takes the latest ball position, if one is waiting.
pub fn get_mv_position(position: &mut PositionSignal) -> (r: Option<(u16, u16)>)
    ensures
        r == position_value(position_slot(*old(position))),
        position_slot(*final(position)) == Seq::<(u16, u16)>::empty(),
{
    if position.signaled() {
        if let Some((x, y)) = position.try_take() {
            Some((x, y))
        } else {
            None
        }
    } else {
        None
    }
}

/// A take after signaling the readings of a line gives the last reading read
/// in full, or what was waiting before when none was.
pub proof fn lemma_take_latest(slot: Seq<(u16, u16)>, readings: Seq<Option<(u16, u16)>>, k: int)
    requires
        0 <= k < readings.len(),
        readings[k] is Some,
        forall|j: int| k < j < readings.len() ==> readings[j] is None,
    ensures
        position_value(latest_reading(slot, readings)) == readings[k],
    decreases readings.len(),
{
    if k < readings.len() - 1 {
        lemma_take_latest(slot, readings.drop_last(), k);
    }
}

/// A table line never sets entry 0, and the item at index n sets entry
/// n + 1 only: entries come in increasing order, each at most the number of
/// items.
pub proof fn lemma_table_slots(pieces: Seq<Seq<u8>>)
    ensures
        forall|k: int|
            0 <= k < table_entries(pieces).len() ==> 1 <= #[trigger] table_entries(pieces)[k].0
                <= pieces.len(),
        forall|j: int, k: int|
            0 <= j < k < table_entries(pieces).len() ==> #[trigger] table_entries(pieces)[j].0
                < #[trigger] table_entries(pieces)[k].0,
    decreases pieces.len(),
{
    if pieces.len() > 0 {
        let prev = table_entries(pieces.drop_last());
        let t = table_entries(pieces);
        lemma_table_slots(pieces.drop_last());
        match coord_pair(trim_spec(pieces.last()), 0x28, 0x29) {
            Some(c) => {
                assert(t == prev.push((pieces.len() as nat, c.0, c.1)));
                assert forall|k: int| 0 <= k < t.len() implies 1 <= #[trigger] t[k].0 <= pieces.len() by {
                    if k < prev.len() {
                        assert(t[k] == prev[k]);
                    }
                }
                assert forall|j: int, k: int| 0 <= j < k < t.len() implies #[trigger] t[j].0
                    < #[trigger] t[k].0 by {
                    assert(t[j] == prev[j]);
                    if k < prev.len() {
                        assert(t[k] == prev[k]);
                    }
                }
            },
            None => {
                assert(t == prev);
            },
        }
    }
}

/// An item `[x:y]` with whitespace on either side, where `x` holds no
/// colon, reads as the coordinates `x` and `y`.
proof fn lemma_bracket_item(w1: Seq<u8>, x: Seq<u8>, y: Seq<u8>, w2: Seq<u8>, open: u8, close: u8)
    requires
        all_ascii_ws(w1),
        all_ascii_ws(w2),
        !x.contains(0x3a),
        open == 0x5b || open == 0x28,
        close == 0x5d || close == 0x29,
    ensures
        coord_pair(
            trim_spec(w1 + (seq![open] + x + seq![0x3au8] + y + seq![close]) + w2),
            open,
            close,
        ) == Some((x, y)),
{
    let m = seq![open] + x + seq![0x3au8] + y + seq![close];
    lemma_trim_surrounding(w1, m, w2);
    let inner = m.subrange(1, m.len() - 1);
    assert(inner =~= x + seq![0x3au8] + y);
    assert forall|k: int| 0 <= k < x.len() implies inner[k] != 0x3a by {
        assert(inner[k] == x[k]);
    }
    lemma_position_at(inner, 0x3a, x.len() as int);
    assert(inner.take(x.len() as int) =~= x);
    assert(inner.skip(x.len() as int + 1) =~= y);
}

/// Each item of a ball line is read after trimming whitespace at both ends:
/// an item `ws* [x:y] ws*`, where `x` holds no colon, adds the position
/// `(x, y)` after those of the items before it.
pub proof fn lemma_point_item(pieces: Seq<Seq<u8>>, w1: Seq<u8>, x: Seq<u8>, y: Seq<u8>, w2: Seq<u8>)
    requires
        all_ascii_ws(w1),
        all_ascii_ws(w2),
        !x.contains(0x3a),
    ensures
        point_entries(
            pieces.push(w1 + (seq![0x5bu8] + x + seq![0x3au8] + y + seq![0x5du8]) + w2),
        ) == point_entries(pieces).push((x, y)),
{
    let p = w1 + (seq![0x5bu8] + x + seq![0x3au8] + y + seq![0x5du8]) + w2;
    lemma_bracket_item(w1, x, y, w2, 0x5b, 0x5d);
    assert(pieces.push(p).drop_last() =~= pieces);
    assert(pieces.push(p).last() == p);
}

/// Each item of a table line is read after trimming whitespace at both
/// ends: an item `ws* (x:y) ws*` at index n, where `x` holds no colon, sets
/// entry n + 1 to `(x, y)`.
pub proof fn lemma_table_item(pieces: Seq<Seq<u8>>, w1: Seq<u8>, x: Seq<u8>, y: Seq<u8>, w2: Seq<u8>)
    requires
        all_ascii_ws(w1),
        all_ascii_ws(w2),
        !x.contains(0x3a),
    ensures
        table_entries(
            pieces.push(w1 + (seq![0x28u8] + x + seq![0x3au8] + y + seq![0x29u8]) + w2),
        ) == table_entries(pieces).push(((pieces.len() + 1) as nat, x, y)),
{
    let p = w1 + (seq![0x28u8] + x + seq![0x3au8] + y + seq![0x29u8]) + w2;
    lemma_bracket_item(w1, x, y, w2, 0x28, 0x29);
    assert(pieces.push(p).drop_last() =~= pieces);
    assert(pieces.push(p).last() == p);
}

/// An item that is not bracketed adds nothing to a ball line.
pub proof fn lemma_unbracketed_point(pieces: Seq<Seq<u8>>, p: Seq<u8>)
    requires
        trim_spec(p).len() == 0 || trim_spec(p)[0] != 0x5b,
    ensures
        point_entries(pieces.push(p)) == point_entries(pieces),
{
    assert(pieces.push(p).drop_last() =~= pieces);
    assert(pieces.push(p).last() == p);
}

/// A line with no position read in full leaves what was waiting; a take
/// gives the one waiting position, or nothing when none waits.
pub proof fn lemma_no_reading_keeps(slot: Seq<(u16, u16)>, readings: Seq<Option<(u16, u16)>>, p: (u16, u16))
    requires
        forall|j: int| 0 <= j < readings.len() ==> readings[j] is None,
    ensures
        latest_reading(slot, readings) == slot,
        position_value(seq![p]) == Some(p),
        position_value(Seq::<(u16, u16)>::empty()) is None,
    decreases readings.len(),
{
    if readings.len() > 0 {
        lemma_no_reading_keeps(slot, readings.drop_last(), p);
    }
}

/// The items of a table line are the text between its braces, trimmed and
/// split at commas, when the text before `{` and between the braces holds
/// no brace.
pub proof fn lemma_table_items(pre: Seq<u8>, inner: Seq<u8>, post: Seq<u8>)
    requires
        !pre.contains(0x7b) && !pre.contains(0x7d),
        !inner.contains(0x7b) && !inner.contains(0x7d),
    ensures
        is_table_line(pre + seq![0x7bu8] + inner + seq![0x7du8] + post),
        table_items(pre + seq![0x7bu8] + inner + seq![0x7du8] + post) == split_spec(
            trim_spec(inner),
            0x2c,
        ),
{
    let d = pre + seq![0x7bu8] + inner + seq![0x7du8] + post;
    let f = pre.len() as int;
    let b = (pre.len() + 1 + inner.len()) as int;
    assert(d[f] == 0x7b);
    assert(d[b] == 0x7d);
    assert forall|k: int| 0 <= k < f implies d[k] != 0x7b by {
        assert(d[k] == pre[k]);
    }
    assert forall|k: int| 0 <= k < b implies d[k] != 0x7d by {
        if k < f {
            assert(d[k] == pre[k]);
        } else if k > f {
            assert(d[k] == inner[k - f - 1]);
        }
    }
    lemma_position_at(d, 0x7b, f);
    lemma_position_at(d, 0x7d, b);
    assert(d.subrange(f + 1, b) =~= inner);
}

} // verus!
