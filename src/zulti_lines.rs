use vstd::prelude::*;

use crate::bounding_box::BoundingBox;
use crate::coord::Coord;
use crate::error::EncodeError;
use crate::multi::{
    enc_multi, member_bytes, members_in, multi_fits, multi_ok, read_multi, seqs_of, write_multi,
    Multi,
};
use crate::simple::box_at;
use crate::zine::Zine;

verus! {

/// A view over the encoding of a multi-line-string: its line strings, in order.
#[derive(Debug, Clone, Copy)]
pub struct ZultiLines<'a> {
    pub multi: Multi<'a>,
}

impl<'a> View for ZultiLines<'a> {
    type V = Seq<Seq<Coord>>;

    open spec fn view(&self) -> Seq<Seq<Coord>> {
        self.multi@
    }
}

impl<'a> ZultiLines<'a> {
    /// The view reads a well-formed payload.
    pub open spec fn wf(self) -> bool {
        self.multi.wf()
    }

    /// The view decoded from `data`: its box and its members.
    pub open spec fn denotes(self, data: Seq<u8>) -> bool {
        self.wf() && self.multi.data@ == data
    }

    pub fn new(multi: Multi<'a>) -> (r: Self)
        ensures
            r.multi == multi,
    {
        ZultiLines { multi }
    }

    /// Reads the payload in `data`, checking its offset table; `None` when the
    /// counts and offsets do not match the bytes.
    pub fn from_bytes(data: &'a [u8]) -> (r: Option<Self>)
        ensures
            r is Some <==> multi_ok(data@),
            r matches Some(v) ==> v.denotes(data@) && v@ == members_in(data@),
    {
        match read_multi(data) {
            Some(multi) => Some(ZultiLines { multi }),
            None => None,
        }
    }

    /// Appends the payload of `parts`; see [`write_multi`].
    pub fn write_from_geometry(writer: &mut Vec<u8>, parts: &[Vec<Coord>]) -> (r: Result<
        (),
        EncodeError,
    >)
        ensures
            r is Ok <==> multi_fits(seqs_of(parts@)),
            r is Ok ==> final(writer)@ == old(writer)@ + enc_multi(seqs_of(parts@)),
            r is Err ==> final(writer)@ == old(writer)@,
    {
        write_multi(writer, parts)
    }

    pub fn bounding_box(&self) -> (r: BoundingBox)
        requires
            self.wf(),
        ensures
            r == box_at(self.multi.data@, 0),
    {
        self.multi.bounding_box
    }

    /// The number of members.
    pub fn len(&self) -> (r: usize)
        requires
            self.wf(),
        ensures
            r == self@.len(),
    {
        self.multi.count
    }

    pub fn is_empty(&self) -> (r: bool)
        requires
            self.wf(),
        ensures
            r == (self@.len() == 0),
    {
        self.multi.count == 0
    }

    /// Member `index`, or `None` past the end.
    pub fn get(&self, index: usize) -> (r: Option<Zine<'a>>)
        requires
            self.wf(),
        ensures
            r is Some <==> index < self@.len(),
            r matches Some(m) ==> m@ == self@[index as int] && m.bounding_box == box_at(
                member_bytes(self.multi.data@, index as int),
                0,
            ),
    {
        if index >= self.multi.count {
            return None;
        }
        let (bounding_box, coords) = self.multi.get(index);
        Some(Zine::new(bounding_box, coords))
    }

    /// Every member, in order.
    pub fn lines(&self) -> (r: Vec<Zine<'a>>)
        requires
            self.wf(),
        ensures
            r@.len() == self@.len(),
            forall|i: int| 0 <= i < r@.len() ==> (#[trigger] r@[i])@ == self@[i],
            forall|i: int|
                0 <= i < r@.len() ==> (#[trigger] r@[i]).bounding_box == self.multi.member_box(i),
    {
        let n = self.multi.count;
        let mut out: Vec<Zine<'a>> = Vec::new();
        let mut i: usize = 0;
        while i < n
            invariant
                self.wf(),
                n == self@.len(),
                i <= n,
                out@.len() == i,
                forall|j: int| 0 <= j < i ==> (#[trigger] out@[j])@ == self@[j],
                forall|j: int|
                    0 <= j < i ==> (#[trigger] out@[j]).bounding_box == self.multi.member_box(j),
            decreases n - i,
        {
            let (bounding_box, coords) = self.multi.get(i);
            out.push(Zine::new(bounding_box, coords));
            i = i + 1;
        }
        out
    }
}

} // verus!
