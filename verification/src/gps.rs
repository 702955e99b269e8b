//! NMEA RMC sentences from a GPS receiver.
//!
//! A read buffer holds sentences that start with `$`.  Only complete
//! sentences (ending in `\r\n`) whose talker-less type is `RMC` are read; of
//! their comma-separated fields, 2 (status), 4 (latitude hemisphere) and 6
//! (longitude hemisphere) are single characters, 3 (latitude), 5 (longitude)
//! and 7 (speed in knots) are numbers.
//!
//! ```text
//! GPRMC,235316.000,A,2959.9925,S,12000.0090,E,0.009,75.020,020711,,,A*45
//! 0     1          2 3         4 5          6 7     ...
//! ```

use crate::bytes::{
    lemma_split_no_sep,
    all_ascii_ws, is_ascii_ws, lemma_trim_surrounding,
    copy_range, lemma_split_concat, ends_with_spec, ranges_view, split_ranges, split_spec, trim_range, trim_spec,
};
use vstd::prelude::*;

verus! {

/// Which value of the RMC record a field sets.
#[derive(Clone, Copy, Debug, PartialEq, Eq, Structural)]
pub enum RmcKind {
    Status,
    Latitude,
    LatHemisphere,
    Longitude,
    LonHemisphere,
    Speed,
}

/// One field of a sentence that sets a value of the record.  For the
/// character fields `text` is the one ASCII character; for the number
/// fields it is the field as received, to be read as a decimal number (a
/// field that does not read as one leaves the value as it was).
pub struct RmcUpdate {
    pub kind: RmcKind,
    pub text: Vec<u8>,
}

impl View for RmcUpdate {
    type V = (RmcKind, Seq<u8>);

    open spec fn view(&self) -> (RmcKind, Seq<u8>) {
        (self.kind, self.text@)
    }
}

/// The updates of a list, as kinds and texts.
pub open spec fn updates_view(v: Seq<RmcUpdate>) -> Seq<(RmcKind, Seq<u8>)> {
    v.map_values(|u: RmcUpdate| u@)
}

/// The value that field `i` of an RMC sentence sets, if any.
pub open spec fn field_kind(i: int) -> Option<RmcKind> {
    if i == 2 {
        Some(RmcKind::Status)
    } else if i == 3 {
        Some(RmcKind::Latitude)
    } else if i == 4 {
        Some(RmcKind::LatHemisphere)
    } else if i == 5 {
        Some(RmcKind::Longitude)
    } else if i == 6 {
        Some(RmcKind::LonHemisphere)
    } else if i == 7 {
        Some(RmcKind::Speed)
    } else {
        None
    }
}

/// Whether a value is set from a single character.
pub open spec fn is_char_kind(k: RmcKind) -> bool {
    k == RmcKind::Status || k == RmcKind::LatHemisphere || k == RmcKind::LonHemisphere
}

/// The update that field `i`, reading `raw`, makes: none for other fields,
/// none for a character field that is not exactly one ASCII character.
pub open spec fn field_update(i: int, raw: Seq<u8>) -> Seq<(RmcKind, Seq<u8>)> {
    match field_kind(i) {
        Some(k) => if is_char_kind(k) && !(raw.len() == 1 && raw[0] < 0x80) {
            Seq::empty()
        } else {
            seq![(k, raw)]
        },
        None => Seq::empty(),
    }
}

/// The updates of the fields `fields`, numbered from 0, in order.
pub open spec fn field_updates(fields: Seq<Seq<u8>>) -> Seq<(RmcKind, Seq<u8>)>
    decreases fields.len(),
{
    if fields.len() == 0 {
        Seq::empty()
    } else {
        field_updates(fields.drop_last()) + field_update(fields.len() - 1, fields.last())
    }
}

/// Whether a trimmed sentence is of type RMC: its characters 2 to 4 read
/// `RMC`.
pub open spec fn is_rmc(t: Seq<u8>) -> bool {
    t.len() >= 5 && t[2] == 0x52 && t[3] == 0x4d && t[4] == 0x43
}

/// The updates of one piece of the buffer between two `$`.
pub open spec fn sentence_updates(chunk: Seq<u8>) -> Seq<(RmcKind, Seq<u8>)> {
    if ends_with_spec(chunk, seq![0x0du8, 0x0au8]) && is_rmc(trim_spec(chunk)) {
        field_updates(split_spec(trim_spec(chunk), 0x2c))
    } else {
        Seq::empty()
    }
}

/// The updates of the pieces `chunks`, in order.
pub open spec fn chunk_updates(chunks: Seq<Seq<u8>>) -> Seq<(RmcKind, Seq<u8>)>
    decreases chunks.len(),
{
    if chunks.len() == 0 {
        Seq::empty()
    } else {
        chunk_updates(chunks.drop_last()) + sentence_updates(chunks.last())
    }
}

/// The updates that a read buffer makes, in order.
pub open spec fn rmc_updates(buffer: Seq<u8>) -> Seq<(RmcKind, Seq<u8>)> {
    chunk_updates(split_spec(buffer, 0x24))
}

fn field_kind_of(i: usize) -> (r: Option<RmcKind>)
    ensures
        r == field_kind(i as int),
{
    if i == 2 {
        Some(RmcKind::Status)
    } else if i == 3 {
        Some(RmcKind::Latitude)
    } else if i == 4 {
        Some(RmcKind::LatHemisphere)
    } else if i == 5 {
        Some(RmcKind::Longitude)
    } else if i == 6 {
        Some(RmcKind::LonHemisphere)
    } else if i == 7 {
        Some(RmcKind::Speed)
    } else {
        None
    }
}

/// Appends the updates of the piece `s[lo..hi]`.
fn sentence_updates_into(s: &[u8], lo: usize, hi: usize, out: &mut Vec<RmcUpdate>)
    requires
        lo <= hi <= s@.len(),
    ensures
        updates_view(final(out)@) == updates_view(old(out)@) + sentence_updates(
            s@.subrange(lo as int, hi as int),
        ),
{
    let ghost chunk = s@.subrange(lo as int, hi as int);
    let ends = hi - lo >= 2 && s[hi - 2] == 0x0d && s[hi - 1] == 0x0a;
    proof {
        if chunk.len() >= 2 {
            assert(chunk.subrange(chunk.len() - 2, chunk.len() as int) =~= seq![
                s@[hi - 2],
                s@[hi - 1],
            ]);
        }
    }
    assert(ends == ends_with_spec(chunk, seq![0x0du8, 0x0au8]));
    if !ends {
        assert(updates_view(out@) =~= updates_view(out@) + Seq::<(RmcKind, Seq<u8>)>::empty());
        return;
    }
    let (a, c) = trim_range(s, lo, hi);
    let ghost t = s@.subrange(a as int, c as int);
    let rmc = c - a >= 5 && s[a + 2] == 0x52 && s[a + 3] == 0x4d && s[a + 4] == 0x43;
    assert(rmc == is_rmc(t));
    if !rmc {
        assert(updates_view(out@) =~= updates_view(out@) + Seq::<(RmcKind, Seq<u8>)>::empty());
        return;
    }
    let fields = split_ranges(s, a, c, 0x2c);
    let ghost items = split_spec(t, 0x2c);
    let ghost base = updates_view(out@);
    let mut j: usize = 0;
    assert(items.take(0) =~= Seq::<Seq<u8>>::empty());
    assert(base + field_updates(items.take(0)) =~= base);
    while j < fields.len()
        invariant
            0 <= j <= fields@.len(),
            fields@.len() == items.len(),
            ranges_view(s@, fields@) == items,
            forall|k: int| 0 <= k < fields@.len() ==> a <= #[trigger] fields@[k].0 <= fields@[k].1 <= c,
            c <= s@.len(),
            updates_view(out@) == base + field_updates(items.take(j as int)),
        decreases fields@.len() - j,
    {
        let (fa, fc) = fields[j];
        assert(ranges_view(s@, fields@)[j as int] == s@.subrange(fa as int, fc as int));
        let ghost raw = items[j as int];
        assert(items.take(j + 1).drop_last() =~= items.take(j as int));
        assert(items.take(j + 1).last() == raw);
        let ghost before = updates_view(out@);
        match field_kind_of(j) {
            Some(k) => {
                let is_char = match k {
                    RmcKind::Status | RmcKind::LatHemisphere | RmcKind::LonHemisphere => true,
                    _ => false,
                };
                if is_char && !(fc - fa == 1 && s[fa] < 0x80) {
                    assert(field_update(j as int, raw) =~= Seq::<(RmcKind, Seq<u8>)>::empty());
                    assert(before + field_update(j as int, raw) =~= before);
                } else {
                    let text = copy_range(s, fa, fc);
                    out.push(RmcUpdate { kind: k, text });
                    assert(updates_view(out@) =~= before.push((k, raw)));
                    assert(before + field_update(j as int, raw) =~= before.push((k, raw)));
                }
            },
            None => {
                assert(before + field_update(j as int, raw) =~= before);
            },
        }
        assert(base + field_updates(items.take(j + 1)) =~= base + field_updates(items.take(j as int))
            + field_update(j as int, raw));
        j = j + 1;
    }
    assert(items.take(fields@.len() as int) =~= items);
}

/// The updates that a read buffer makes to the RMC record, in order.
pub fn parse_rmc(buffer: &[u8]) -> (r: Vec<RmcUpdate>)
    ensures
        updates_view(r@) == rmc_updates(buffer@),
{
    let len = buffer.len();
    let chunks = split_ranges(buffer, 0, len, 0x24);
    assert(buffer@.subrange(0, len as int) =~= buffer@);
    let ghost items = split_spec(buffer@, 0x24);
    let mut out: Vec<RmcUpdate> = Vec::new();
    let mut k: usize = 0;
    assert(items.take(0) =~= Seq::<Seq<u8>>::empty());
    assert(updates_view(out@) =~= Seq::<(RmcKind, Seq<u8>)>::empty());
    while k < chunks.len()
        invariant
            0 <= k <= chunks@.len(),
            chunks@.len() == items.len(),
            ranges_view(buffer@, chunks@) == items,
            forall|j: int| 0 <= j < chunks@.len() ==> 0 <= #[trigger] chunks@[j].0 <= chunks@[j].1 <= len,
            len == buffer@.len(),
            updates_view(out@) == chunk_updates(items.take(k as int)),
        decreases chunks@.len() - k,
    {
        let (ca, cc) = chunks[k];
        assert(ranges_view(buffer@, chunks@)[k as int] == buffer@.subrange(ca as int, cc as int));
        assert(items.take(k + 1).drop_last() =~= items.take(k as int));
        assert(items.take(k + 1).last() == items[k as int]);
        sentence_updates_into(buffer, ca, cc, &mut out);
        k = k + 1;
    }
    assert(items.take(chunks@.len() as int) =~= items);
    out
}

proof fn lemma_chunk_updates_concat(s1: Seq<Seq<u8>>, s2: Seq<Seq<u8>>)
    ensures
        chunk_updates(s1 + s2) == chunk_updates(s1) + chunk_updates(s2),
    decreases s2.len(),
{
    if s2.len() == 0 {
        assert(s1 + s2 =~= s1);
        assert(chunk_updates(s1) + chunk_updates(s2) =~= chunk_updates(s1));
    } else {
        lemma_chunk_updates_concat(s1, s2.drop_last());
        assert((s1 + s2).drop_last() =~= s1 + s2.drop_last());
        assert((s1 + s2).last() == s2.last());
        assert(chunk_updates(s1 + s2) =~= chunk_updates(s1) + chunk_updates(s2));
    }
}

/// A buffer read in two parts that meet at a `$` makes the same updates as
/// the whole buffer read at once.
pub proof fn lemma_rmc_reads_compose(a: Seq<u8>, b: Seq<u8>)
    ensures
        rmc_updates(a + seq![0x24u8] + b) == rmc_updates(a) + rmc_updates(b),
{
    lemma_split_concat(a, b, 0x24);
    lemma_chunk_updates_concat(split_spec(a, 0x24), split_spec(b, 0x24));
}

/// Fields 2, 4 and 6 set the status, the latitude hemisphere and the
/// longitude hemisphere from any single ASCII character, and nothing from
/// anything else; fields 3, 5 and 7 always hand on their text as the
/// latitude, longitude and speed; the other fields set nothing.
pub proof fn lemma_field_updates_by_index(i: int, raw: Seq<u8>, c: u8)
    ensures
        c < 0x80 ==> field_update(2, seq![c]) == seq![(RmcKind::Status, seq![c])],
        c < 0x80 ==> field_update(4, seq![c]) == seq![(RmcKind::LatHemisphere, seq![c])],
        c < 0x80 ==> field_update(6, seq![c]) == seq![(RmcKind::LonHemisphere, seq![c])],
        (i == 2 || i == 4 || i == 6) && !(raw.len() == 1 && raw[0] < 0x80) ==> field_update(i, raw)
            =~= Seq::empty(),
        field_update(3, raw) == seq![(RmcKind::Latitude, raw)],
        field_update(5, raw) == seq![(RmcKind::Longitude, raw)],
        field_update(7, raw) == seq![(RmcKind::Speed, raw)],
        !(2 <= i <= 7) ==> field_update(i, raw) =~= Seq::empty(),
{
}

proof fn lemma_field_updates_step(fields: Seq<Seq<u8>>, n: int)
    requires
        0 <= n < fields.len(),
    ensures
        field_updates(fields.take(n + 1)) == field_updates(fields.take(n)) + field_update(
            n,
            fields[n],
        ),
{
    assert(fields.take(n + 1).drop_last() =~= fields.take(n));
    assert(fields.take(n + 1).last() == fields[n]);
}

proof fn lemma_field_updates_tail(fields: Seq<Seq<u8>>, n: int)
    requires
        8 <= n <= fields.len(),
    ensures
        field_updates(fields.take(n)) == field_updates(fields.take(8)),
    decreases n,
{
    if n > 8 {
        lemma_field_updates_tail(fields, n - 1);
        lemma_field_updates_step(fields, n - 1);
        assert(field_update(n - 1, fields[n - 1]) =~= Seq::<(RmcKind, Seq<u8>)>::empty());
        assert(field_updates(fields.take(n)) =~= field_updates(fields.take(n - 1)));
    }
}

/// A sentence whose fields 2, 4 and 6 are single ASCII characters sets all
/// six values of the record, in field order, from fields 2 to 7; fields
/// after 7 set nothing.
pub proof fn lemma_rmc_fields(fields: Seq<Seq<u8>>)
    requires
        fields.len() >= 8,
        fields[2].len() == 1 && fields[2][0] < 0x80,
        fields[4].len() == 1 && fields[4][0] < 0x80,
        fields[6].len() == 1 && fields[6][0] < 0x80,
    ensures
        field_updates(fields) == seq![
            (RmcKind::Status, fields[2]),
            (RmcKind::Latitude, fields[3]),
            (RmcKind::LatHemisphere, fields[4]),
            (RmcKind::Longitude, fields[5]),
            (RmcKind::LonHemisphere, fields[6]),
            (RmcKind::Speed, fields[7]),
        ],
{
    assert(fields.take(0) =~= Seq::<Seq<u8>>::empty());
    lemma_field_updates_step(fields, 0);
    lemma_field_updates_step(fields, 1);
    lemma_field_updates_step(fields, 2);
    lemma_field_updates_step(fields, 3);
    lemma_field_updates_step(fields, 4);
    lemma_field_updates_step(fields, 5);
    lemma_field_updates_step(fields, 6);
    lemma_field_updates_step(fields, 7);
    lemma_field_updates_tail(fields, fields.len() as int);
    assert(fields.take(fields.len() as int) =~= fields);
    assert(field_updates(fields.take(2)) =~= Seq::<(RmcKind, Seq<u8>)>::empty());
    assert(field_updates(fields.take(8)) =~= seq![
        (RmcKind::Status, fields[2]),
        (RmcKind::Latitude, fields[3]),
        (RmcKind::LatHemisphere, fields[4]),
        (RmcKind::Longitude, fields[5]),
        (RmcKind::LonHemisphere, fields[6]),
        (RmcKind::Speed, fields[7]),
    ]);
}

/// A complete sentence `t\r\n` whose type (characters 2 to 4) is `RMC` makes
/// the updates of its comma-separated fields; a piece that does not end in
/// `\r\n`, or whose type is not `RMC`, makes none.
pub proof fn lemma_rmc_sentence(t: Seq<u8>, chunk: Seq<u8>)
    requires
        t.len() >= 5,
        !is_ascii_ws(t[0]),
        !is_ascii_ws(t.last()),
    ensures
        t[2] == 0x52 && t[3] == 0x4d && t[4] == 0x43 ==> sentence_updates(t + seq![0x0du8, 0x0au8])
            == field_updates(split_spec(t, 0x2c)),
        !(t[2] == 0x52 && t[3] == 0x4d && t[4] == 0x43) ==> sentence_updates(
            t + seq![0x0du8, 0x0au8],
        ) =~= Seq::empty(),
        !(chunk.len() >= 2 && chunk[chunk.len() - 2] == 0x0d && chunk[chunk.len() - 1] == 0x0a)
            ==> sentence_updates(chunk) =~= Seq::empty(),
{
    let c = t + seq![0x0du8, 0x0au8];
    let e = Seq::<u8>::empty();
    assert(all_ascii_ws(seq![0x0du8, 0x0au8]));
    lemma_trim_surrounding(e, t, seq![0x0du8, 0x0au8]);
    assert(e + t + seq![0x0du8, 0x0au8] =~= c);
    assert(c.subrange(c.len() - 2, c.len() as int) =~= seq![0x0du8, 0x0au8]);
    if chunk.len() >= 2 {
        let tail = chunk.subrange(chunk.len() - 2, chunk.len() as int);
        if tail == seq![0x0du8, 0x0au8] {
            assert(tail[0] == chunk[chunk.len() - 2]);
            assert(tail[1] == chunk[chunk.len() - 1]);
        }
    }
}

/// A buffer holding one sentence, `$` then a piece without `$`, makes the
/// updates of that piece.
pub proof fn lemma_rmc_one_sentence(body: Seq<u8>)
    requires
        !body.contains(0x24),
    ensures
        rmc_updates(seq![0x24u8] + body) == sentence_updates(body),
{
    let e = Seq::<u8>::empty();
    assert(e + seq![0x24u8] + body =~= seq![0x24u8] + body);
    lemma_split_concat(e, body, 0x24);
    lemma_split_no_sep(body, 0x24);
    assert(split_spec(e, 0x24) =~= seq![e]);
    let chunks = seq![e, body];
    assert(split_spec(seq![0x24u8] + body, 0x24) =~= chunks);
    assert(chunks.drop_last() =~= seq![e]);
    assert(seq![e].drop_last() =~= Seq::<Seq<u8>>::empty());
    assert(!ends_with_spec(e, seq![0x0du8, 0x0au8]));
    assert(sentence_updates(e) =~= Seq::<(RmcKind, Seq<u8>)>::empty());
    assert(seq![e].last() == e);
    assert(chunk_updates(Seq::<Seq<u8>>::empty()) =~= Seq::<(RmcKind, Seq<u8>)>::empty());
    assert(chunk_updates(seq![e]) == chunk_updates(Seq::<Seq<u8>>::empty()) + sentence_updates(e));
    assert(chunk_updates(seq![e]) =~= Seq::<(RmcKind, Seq<u8>)>::empty());
    assert(chunks.last() == body);
    assert(chunk_updates(chunks) =~= sentence_updates(body));
}

} // verus!
