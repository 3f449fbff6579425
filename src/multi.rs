//! The payload shared by multi-line-strings and multi-polygons: a bounding box,
//! a table of member offsets, and the members' own payloads one after the other.
use vstd::bytes::{
    lemma_auto_spec_u32_to_from_le_bytes, spec_u32_from_le_bytes, spec_u32_to_le_bytes,
    u32_from_le_bytes, u32_to_le_bytes,
};
use vstd::prelude::*;
use vstd::slice::slice_subrange;

use crate::bounding_box::{
    bbox_of, box_or_origin, enc_box, fold_box, fold_points, lemma_fold_box_append, BoundingBox,
    };
use crate::coord::Coord;
use crate::coords::Coords;
use crate::error::EncodeError;
use crate::simple::{
    box_at, enc_simple, lemma_enc_box, lemma_simple_round_trip, read_simple, simple_coords,
    simple_len, simple_ok, write_simple,
};

verus! {

/// The 4 little-endian bytes at `off`, read as a `u32`.
pub open spec fn u32_at(b: Seq<u8>, off: int) -> u32 {
    spec_u32_from_le_bytes(b.subrange(off, off + 4))
}

/// The views of a list of coordinate lists.
pub open spec fn seqs_of(parts: Seq<Vec<Coord>>) -> Seq<Seq<Coord>> {
    parts.map_values(|v: Vec<Coord>| v@)
}

/// All coordinates of all parts, in order.
pub open spec fn flat(parts: Seq<Seq<Coord>>) -> Seq<Coord>
    decreases parts.len(),
{
    if parts.len() == 0 {
        Seq::empty()
    } else {
        flat(parts.drop_last()) + parts.last()
    }
}

/// The byte offset of part `i`'s payload from the start of the first one.
pub open spec fn offset_of(parts: Seq<Seq<Coord>>, i: int) -> int
    decreases i,
{
    if i <= 0 {
        0
    } else {
        offset_of(parts, i - 1) + simple_len(parts[i - 1])
    }
}

/// The offset table for the first `k` parts.
pub open spec fn enc_offsets(parts: Seq<Seq<Coord>>, k: int) -> Seq<u8>
    decreases k,
{
    if k <= 0 {
        Seq::empty()
    } else {
        enc_offsets(parts, k - 1) + spec_u32_to_le_bytes(offset_of(parts, k - 1) as u32)
    }
}

/// The members' payloads, one after the other.
pub open spec fn enc_payloads(parts: Seq<Seq<Coord>>) -> Seq<u8>
    decreases parts.len(),
{
    if parts.len() == 0 {
        Seq::empty()
    } else {
        enc_payloads(parts.drop_last()) + enc_simple(parts.last())
    }
}

/// Four zero bytes after an even number of offsets, keeping what follows on 8 bytes.
pub open spec fn padding(n: nat) -> Seq<u8> {
    if n % 2 == 0 {
        seq![0u8, 0u8, 0u8, 0u8]
    } else {
        Seq::empty()
    }
}

/// Length of the header: box, count, offsets and padding.
pub open spec fn header_len(n: nat) -> int {
    36 + 4 * n + if n % 2 == 0 {
        4int
    } else {
        0int
    }
}

/// The encoding of a list of parts.
pub open spec fn enc_multi(parts: Seq<Seq<Coord>>) -> Seq<u8> {
    enc_box(bbox_of(flat(parts))) + spec_u32_to_le_bytes(parts.len() as u32) + enc_offsets(
        parts,
        parts.len() as int,
    ) + padding(parts.len()) + enc_payloads(parts)
}

/// The parts can be encoded: their count and every offset fit in a `u32`.
pub open spec fn multi_fits(parts: Seq<Seq<Coord>>) -> bool {
    parts.len() <= u32::MAX && offset_of(parts, parts.len() as int) <= u32::MAX
}

/// The member count read from a payload.
pub open spec fn count_in(b: Seq<u8>) -> nat {
    u32_at(b, 32) as nat
}

/// Where member `i` starts, from the start of the members' region.
pub open spec fn start_in(b: Seq<u8>, i: int) -> int {
    u32_at(b, 36 + 4 * i) as int
}

/// Where member `i` ends, from the start of the members' region.
pub open spec fn end_in(b: Seq<u8>, i: int) -> int {
    if i + 1 < count_in(b) {
        start_in(b, i + 1)
    } else {
        b.len() - header_len(count_in(b))
    }
}

/// The payload bytes of member `i`.
pub open spec fn member_bytes(b: Seq<u8>, i: int) -> Seq<u8> {
    let h = header_len(count_in(b));
    b.subrange(h + start_in(b, i), h + end_in(b, i))
}

/// Member `i` lies within the members' region and has the shape of a payload.
pub open spec fn member_ok(b: Seq<u8>, i: int) -> bool {
    let h = header_len(count_in(b));
    &&& 0 <= start_in(b, i) <= end_in(b, i) <= b.len() - h
    &&& simple_ok(member_bytes(b, i))
}

/// The bytes have the shape of a multi payload.
pub open spec fn multi_ok(b: Seq<u8>) -> bool {
    &&& b.len() >= 36
    &&& header_len(count_in(b)) <= b.len()
    &&& forall|i: int| 0 <= i < count_in(b) ==> #[trigger] member_ok(b, i)
}

/// The coordinates of each member of a multi payload.
pub open spec fn members_in(b: Seq<u8>) -> Seq<Seq<Coord>> {
    Seq::new(count_in(b), |i: int| simple_coords(member_bytes(b, i)))
}

/// A view over the encoding of a list of parts.
#[derive(Debug, Clone, Copy)]
pub struct Multi<'a> {
    pub bounding_box: BoundingBox,
    pub count: usize,
    pub data: &'a [u8],
}

impl<'a> View for Multi<'a> {
    type V = Seq<Seq<Coord>>;

    open spec fn view(&self) -> Seq<Seq<Coord>> {
        members_in(self.data@)
    }
}

impl<'a> Multi<'a> {
    /// The box written in front of member `i`.
    pub open spec fn member_box(self, i: int) -> BoundingBox {
        box_at(member_bytes(self.data@, i), 0)
    }

    /// The view reads a well-formed payload.
    pub open spec fn wf(self) -> bool {
        multi_ok(self.data@) && self.count == count_in(self.data@) && self.bounding_box == box_at(
            self.data@,
            0,
        )
    }
}

/// Reads the `u32` at `off`.
pub fn read_u32(data: &[u8], off: usize) -> (r: u32)
    requires
        off + 4 <= data@.len(),
    ensures
        r == u32_at(data@, off as int),
{
    let _len = data.len();
    u32_from_le_bytes(slice_subrange(data, off, off + 4))
}

/// Reads a multi payload, checking the whole offset table once.
pub fn read_multi<'a>(data: &'a [u8]) -> (r: Option<Multi<'a>>)
    ensures
        r is Some <==> multi_ok(data@),
        r matches Some(m) ==> m.wf() && m.data@ == data@,
{
    let len = data.len();
    if len < 36 {
        return None;
    }
    let n = read_u32(data, 32) as usize;
    let pad: usize = if n % 2 == 0 {
        4
    } else {
        0
    };
    if n > (len - 36) / 4 {
        return None;
    }
    assert(4 * n <= len - 36) by (nonlinear_arith)
        requires
            n <= (len - 36) / 4,
            len >= 36,
    ;
    if 4 * n + pad > len - 36 {
        return None;
    }
    let h = 36 + 4 * n + pad;
    let body = len - h;
    let mut i: usize = 0;
    while i < n
        invariant
            len == data@.len(),
            n == count_in(data@),
            h == header_len(count_in(data@)),
            h <= len,
            body == len - h,
            36 + 4 * n <= len,
            i <= n,
            forall|j: int| 0 <= j < i ==> #[trigger] member_ok(data@, j),
        decreases n - i,
    {
        let start = read_u32(data, 36 + 4 * i) as usize;
        let end = if i + 1 < n {
            read_u32(data, 36 + 4 * (i + 1)) as usize
        } else {
            body
        };
        if start > end || end > body || end - start < 32 || (end - start - 32) % 16 != 0 {
            assert(!member_ok(data@, i as int));
            return None;
        }
        assert(member_ok(data@, i as int));
        i = i + 1;
    }
    let bounding_box = BoundingBox::read_at(data, 0);
    Some(Multi { bounding_box, count: n, data })
}

impl<'a> Multi<'a> {
    /// Checks that the view reads a well-formed payload.
    pub fn is_well_formed(&self) -> (r: bool)
        ensures
            r == self.wf(),
    {
        match read_multi(self.data) {
            Some(m) => m.count == self.count && m.bounding_box == self.bounding_box,
            None => false,
        }
    }

    /// The box and the coordinates of member `index`.
    pub fn get(&self, index: usize) -> (r: (BoundingBox, Coords<'a>))
        requires
            self.wf(),
            index < self@.len(),
        ensures
            r.0 == box_at(member_bytes(self.data@, index as int), 0),
            r.1@ == self@[index as int],
    {
        let data = self.data;
        let len = data.len();
        let n = self.count;
        assert(member_ok(data@, index as int));
        let pad: usize = if n % 2 == 0 {
            4
        } else {
            0
        };
        let h = 36 + 4 * n + pad;
        let start = read_u32(data, 36 + 4 * index) as usize;
        let end = if index + 1 < n {
            read_u32(data, 36 + 4 * (index + 1)) as usize
        } else {
            len - h
        };
        let bytes = slice_subrange(data, h + start, h + end);
        match read_simple(bytes) {
            Some(pair) => pair,
            None => {
                assert(false);
                read_simple(bytes).unwrap()
            },
        }
    }
}

} // verus!

verus! {

/// Offsets grow with the index.
pub proof fn lemma_offset_monotone(ps: Seq<Seq<Coord>>, i: int, j: int)
    requires
        0 <= i <= j <= ps.len(),
    ensures
        offset_of(ps, i) <= offset_of(ps, j),
    decreases j - i,
{
    if i < j {
        lemma_offset_monotone(ps, i, j - 1);
    }
}

/// Dropping the last part leaves the offsets before it unchanged.
pub proof fn lemma_offset_drop_last(ps: Seq<Seq<Coord>>, i: int)
    requires
        0 <= i < ps.len(),
    ensures
        offset_of(ps.drop_last(), i) == offset_of(ps, i),
    decreases i,
{
    if i > 0 {
        lemma_offset_drop_last(ps, i - 1);
    }
}

/// The offset table holds each part's offset at its slot.
pub proof fn lemma_enc_offsets(ps: Seq<Seq<Coord>>, k: int, i: int)
    requires
        0 <= i < k,
    ensures
        enc_offsets(ps, k).len() == 4 * k,
        enc_offsets(ps, k).subrange(4 * i, 4 * i + 4) == spec_u32_to_le_bytes(
            offset_of(ps, i) as u32,
        ),
    decreases k,
{
    lemma_auto_spec_u32_to_from_le_bytes();
    lemma_enc_offsets_len(ps, k - 1);
    if i < k - 1 {
        lemma_enc_offsets(ps, k - 1, i);
        assert(enc_offsets(ps, k).subrange(4 * i, 4 * i + 4) =~= enc_offsets(ps, k - 1).subrange(
            4 * i,
            4 * i + 4,
        ));
    } else {
        assert(enc_offsets(ps, k).subrange(4 * i, 4 * i + 4) =~= spec_u32_to_le_bytes(
            offset_of(ps, i) as u32,
        ));
    }
}

pub proof fn lemma_enc_offsets_len(ps: Seq<Seq<Coord>>, k: int)
    requires
        0 <= k,
    ensures
        enc_offsets(ps, k).len() == 4 * k,
    decreases k,
{
    lemma_auto_spec_u32_to_from_le_bytes();
    if k > 0 {
        lemma_enc_offsets_len(ps, k - 1);
    }
}

/// A range within the front of a concatenation.
pub proof fn lemma_subrange_front(a: Seq<u8>, b: Seq<u8>, x: int, y: int)
    requires
        0 <= x <= y <= a.len(),
    ensures
        (a + b).subrange(x, y) == a.subrange(x, y),
{
    assert((a + b).subrange(x, y) =~= a.subrange(x, y));
}

/// The members' payloads take the sum of their lengths.
pub proof fn lemma_enc_payloads_len(ps: Seq<Seq<Coord>>)
    ensures
        enc_payloads(ps).len() == offset_of(ps, ps.len() as int),
    decreases ps.len(),
{
    if ps.len() > 0 {
        let p = ps.drop_last();
        lemma_enc_payloads_len(p);
        lemma_simple_round_trip(ps.last());
        lemma_offset_drop_last(ps, p.len() as int);
    }
}

/// Member `i`'s payload lies at its offset.
pub proof fn lemma_enc_payloads_at(ps: Seq<Seq<Coord>>, i: int)
    requires
        0 <= i < ps.len(),
    ensures
        enc_payloads(ps).subrange(offset_of(ps, i), offset_of(ps, i) + simple_len(ps[i]))
            == enc_simple(ps[i]),
    decreases ps.len(),
{
    let p = ps.drop_last();
    let n = p.len() as int;
    lemma_enc_payloads_len(p);
    lemma_offset_drop_last(ps, i);
    lemma_simple_round_trip(ps[i]);
    assert(enc_payloads(ps) == enc_payloads(p) + enc_simple(ps.last()));
    if i < n {
        lemma_enc_payloads_at(p, i);
        lemma_offset_monotone(p, i + 1, n);
        assert(offset_of(p, i + 1) == offset_of(p, i) + simple_len(p[i]));
        assert(p[i] == ps[i]);
        lemma_offset_monotone(p, 0, i);
        lemma_subrange_front(
            enc_payloads(p),
            enc_simple(ps.last()),
            offset_of(p, i),
            offset_of(p, i) + simple_len(p[i]),
        );
    } else {
        assert(enc_payloads(ps).subrange(offset_of(ps, i), offset_of(ps, i) + simple_len(ps[i]))
            =~= enc_simple(ps[i]));
    }
}

/// An encoded list of parts reads back as the same parts, under its box.
pub proof fn lemma_multi_round_trip(ps: Seq<Seq<Coord>>)
    requires
        multi_fits(ps),
    ensures
        multi_ok(enc_multi(ps)),
        count_in(enc_multi(ps)) == ps.len(),
        members_in(enc_multi(ps)) == ps,
        box_at(enc_multi(ps), 0) == bbox_of(flat(ps)),
        enc_multi(ps).len() == header_len(ps.len()) + offset_of(ps, ps.len() as int),
{
    lemma_auto_spec_u32_to_from_le_bytes();
    let n = ps.len() as int;
    let bb = enc_box(bbox_of(flat(ps)));
    let cnt = spec_u32_to_le_bytes(n as u32);
    let offs = enc_offsets(ps, n);
    let pad = padding(ps.len());
    let d = enc_payloads(ps);
    let e = enc_multi(ps);
    lemma_enc_box(bbox_of(flat(ps)), cnt + offs + pad + d);
    assert(e =~= bb + (cnt + offs + pad + d));
    lemma_enc_offsets_len(ps, n);
    lemma_enc_payloads_len(ps);
    let h = header_len(ps.len());
    assert(e.len() == h + d.len());
    assert(e.subrange(32, 36) =~= cnt);
    assert(count_in(e) == n);
    assert forall|i: int| 0 <= i < n implies start_in(e, i) == offset_of(ps, i) by {
        lemma_enc_offsets(ps, n, i);
        lemma_offset_monotone(ps, i, n);
        lemma_offset_monotone(ps, 0, i);
        assert(cnt.len() == 4);
        assert(e.subrange(36 + 4 * i, 36 + 4 * i + 4) =~= offs.subrange(4 * i, 4 * i + 4));
        let x = offset_of(ps, i) as u32;
        assert(spec_u32_from_le_bytes(spec_u32_to_le_bytes(x)) == x);
        assert(offs.subrange(4 * i, 4 * i + 4) == spec_u32_to_le_bytes(x));
        assert(e.subrange(36 + 4 * i, 36 + 4 * i + 4) == spec_u32_to_le_bytes(x));
        assert(u32_at(e, 36 + 4 * i) == x);
    }
    assert forall|i: int| 0 <= i < n implies end_in(e, i) == offset_of(ps, i) + simple_len(
        ps[i],
    ) by {}
    assert forall|i: int| 0 <= i < n implies member_bytes(e, i) == enc_simple(ps[i]) by {
        lemma_enc_payloads_at(ps, i);
        lemma_offset_monotone(ps, i + 1, n);
        assert(member_bytes(e, i) =~= d.subrange(
            offset_of(ps, i),
            offset_of(ps, i) + simple_len(ps[i]),
        ));
    }
    assert forall|i: int| 0 <= i < n implies #[trigger] member_ok(e, i) by {
        lemma_simple_round_trip(ps[i]);
        lemma_offset_monotone(ps, 0, i);
        lemma_offset_monotone(ps, i + 1, n);
    }
    assert forall|i: int| 0 <= i < n implies members_in(e)[i] == ps[i] by {
        lemma_simple_round_trip(ps[i]);
    }
    assert(members_in(e) =~= ps);
}

} // verus!

verus! {

/// The box of all coordinates of all parts.
pub fn fold_parts(acc: Option<BoundingBox>, parts: &[Vec<Coord>]) -> (r: Option<BoundingBox>)
    ensures
        r == fold_box(acc, flat(seqs_of(parts@))),
{
    let ghost ps = seqs_of(parts@);
    let mut cur = acc;
    let mut i: usize = 0;
    while i < parts.len()
        invariant
            i <= parts@.len(),
            ps == seqs_of(parts@),
            cur == fold_box(acc, flat(ps.take(i as int))),
        decreases parts@.len() - i,
    {
        proof {
            assert(ps.take(i + 1).drop_last() =~= ps.take(i as int));
            lemma_fold_box_append(acc, flat(ps.take(i as int)), ps[i as int]);
        }
        cur = fold_points(cur, parts[i].as_slice());
        i = i + 1;
    }
    assert(ps.take(parts@.len() as int) =~= ps);
    cur
}

/// Appends the encoding of `parts`: their common box, the member count, the
/// offset table (padded to 8 bytes), then each member's payload. Nothing is
/// written, and `TooLarge` comes back, when the count or an offset would not
/// fit in a `u32`.
pub fn write_multi(writer: &mut Vec<u8>, parts: &[Vec<Coord>]) -> (r: Result<(), EncodeError>)
    ensures
        r is Ok <==> multi_fits(seqs_of(parts@)),
        r is Ok ==> final(writer)@ == old(writer)@ + enc_multi(seqs_of(parts@)),
        r is Err ==> final(writer)@ == old(writer)@,
{
    let ghost ps = seqs_of(parts@);
    let n = parts.len();
    if n > 0xFFFF_FFFF {
        return Err(EncodeError::TooLarge);
    }
    // 1. Every offset must fit in a u32.
    let mut total: u64 = 0;
    let mut i: usize = 0;
    while i < n
        invariant
            n == parts@.len(),
            ps == seqs_of(parts@),
            i <= n,
            total == offset_of(ps, i as int),
            total <= 0xFFFF_FFFF,
        decreases n - i,
    {
        let len = parts[i].len();
        if len > 0x1000_0000 {
            proof {
                lemma_offset_monotone(ps, i + 1, n as int);
            }
            return Err(EncodeError::TooLarge);
        }
        let next = total + 32 + 16 * (len as u64);
        if next > 0xFFFF_FFFF {
            proof {
                lemma_offset_monotone(ps, i + 1, n as int);
            }
            return Err(EncodeError::TooLarge);
        }
        total = next;
        i = i + 1;
    }
    // 2. The box of every coordinate.
    let bb = box_or_origin(fold_parts(None, parts));
    let ghost start = writer@;
    bb.write(writer);
    // 3. The count, then the offsets.
    let mut count = u32_to_le_bytes(n as u32);
    writer.append(&mut count);
    let ghost after_count = writer@;
    let mut off: u32 = 0;
    let mut j: usize = 0;
    while j < n
        invariant
            n == parts@.len(),
            ps == seqs_of(parts@),
            j <= n,
            offset_of(ps, n as int) <= 0xFFFF_FFFF,
            off == offset_of(ps, j as int),
            writer@ == after_count + enc_offsets(ps, j as int),
        decreases n - j,
    {
        proof {
            lemma_offset_monotone(ps, j + 1, n as int);
        }
        let mut bytes = u32_to_le_bytes(off);
        writer.append(&mut bytes);
        off = off + 32 + 16 * (parts[j].len() as u32);
        j = j + 1;
    }
    // 4. Padding after an even number of offsets.
    if n % 2 == 0 {
        writer.push(0u8);
        writer.push(0u8);
        writer.push(0u8);
        writer.push(0u8);
    }
    assert(writer@ =~= start + enc_box(bb) + spec_u32_to_le_bytes(n as u32) + enc_offsets(
        ps,
        n as int,
    ) + padding(n as nat));
    let ghost before_payloads = writer@;
    // 5. The members.
    let mut k: usize = 0;
    while k < n
        invariant
            n == parts@.len(),
            ps == seqs_of(parts@),
            k <= n,
            writer@ == before_payloads + enc_payloads(ps.take(k as int)),
        decreases n - k,
    {
        assert(ps.take(k + 1).drop_last() =~= ps.take(k as int));
        write_simple(writer, parts[k].as_slice());
        assert(writer@ =~= before_payloads + enc_payloads(ps.take(k + 1)));
        k = k + 1;
    }
    assert(ps.take(n as int) =~= ps);
    assert(writer@ =~= start + enc_multi(ps));
    Ok(())
}

} // verus!
