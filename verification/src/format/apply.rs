//! Laying the writes of a format onto a device, in order.
use vstd::prelude::*;
use crate::bytes::{splice, zeros};
use crate::device::BlockDevice;
use crate::error::Error;
use crate::format::writes::{views, Write, WriteView};

verus! {

/// The device's bytes after one write.
pub open spec fn apply_one(s: Seq<u8>, w: WriteView) -> Seq<u8> {
    match w {
        WriteView::Zero { offset, len } => if len == 0 {
            s
        } else {
            splice(s, offset as int, zeros(len as nat))
        },
        WriteView::Data { offset, bytes } => splice(s, offset as int, bytes),
        WriteView::Flush => s,
    }
}

/// The device's bytes after the writes, in order.
pub open spec fn apply_all(s: Seq<u8>, ws: Seq<WriteView>) -> Seq<u8>
    decreases ws.len(),
{
    if ws.len() == 0 {
        s
    } else {
        apply_one(apply_all(s, ws.drop_last()), ws.last())
    }
}

/// The write lies within a device of `size` bytes.
pub open spec fn within(size: nat, w: WriteView) -> bool {
    match w {
        WriteView::Zero { offset, len } => offset + len <= size,
        WriteView::Data { offset, bytes } => offset + bytes.len() <= size,
        WriteView::Flush => true,
    }
}

/// Writes that lie within the device leave its size alone.
pub proof fn lemma_apply_len(s: Seq<u8>, ws: Seq<WriteView>)
    requires
        forall|i: int| 0 <= i < ws.len() ==> within(s.len(), #[trigger] ws[i]),
    ensures
        apply_all(s, ws).len() == s.len(),
    decreases ws.len(),
{
    if ws.len() > 0 {
        let p = ws.drop_last();
        assert forall|i: int| 0 <= i < p.len() implies within(s.len(), #[trigger] p[i]) by {
            assert(p[i] == ws[i]);
        }
        lemma_apply_len(s, p);
        assert(within(s.len(), ws[ws.len() - 1]));
    }
}

/// Whether the device refuses write `w` for running past its `size`
/// bytes, with that error.
pub open spec fn refused_past_end(size: nat, w: WriteView, e: Error) -> bool {
    match w {
        WriteView::Data { offset, bytes } => offset + bytes.len() > size && e == (Error::OutOfBounds {
            offset,
            len: bytes.len() as u64,
            size: size as u64,
        }),
        _ => false,
    }
}

/// Lay the writes onto `dev`, in order, stopping at the first that fails.
/// The error is that write's: where it is data running past the end, the
/// device's refusal, and the device holds exactly the writes before it.
pub fn apply<D: BlockDevice>(dev: &mut D, ws: &Vec<Write>) -> (r: Result<(), Error>)
    ensures
        final(dev).bytes().len() == old(dev).bytes().len(),
        final(dev).reliable() == old(dev).reliable(),
        r is Ok ==> final(dev).bytes() == apply_all(old(dev).bytes(), views(ws@)),
        old(dev).reliable() && (forall|i: int| 0 <= i < ws@.len() ==> within(old(dev).bytes().len(), #[trigger] views(ws@)[i]))
            ==> r is Ok,
        r matches Err(e) ==> exists|i: int|
            0 <= i < ws@.len() && {
                &&& old(dev).reliable() ==> !within(old(dev).bytes().len(), #[trigger] views(ws@)[i])
                &&& (views(ws@)[i] matches WriteView::Data { offset, bytes } && offset + bytes.len() > old(dev).bytes().len())
                    ==> refused_past_end(old(dev).bytes().len(), views(ws@)[i], e) && final(dev).bytes() == apply_all(
                    old(dev).bytes(),
                    views(ws@).subrange(0, i),
                )
            },
{
    let ghost s0 = dev.bytes();
    let mut i: usize = 0;
    while i < ws.len()
        invariant
            i <= ws@.len(),
            dev.bytes().len() == s0.len(),
            dev.reliable() == old(dev).reliable(),
            s0 == old(dev).bytes(),
            dev.bytes() == apply_all(s0, views(ws@).subrange(0, i as int)),
        decreases ws@.len() - i,
    {
        let ghost before = dev.bytes();
        let res = match &ws[i] {
            Write::Zero { offset, len } => dev.write_zeroes(*offset, *len),
            Write::Data { offset, bytes } => dev.write_at(*offset, bytes.as_slice()),
            Write::Flush => dev.flush(),
        };
        if res.is_err() {
            proof {
                let k = i as int;
                let w = views(ws@)[k];
                assert(w == ws@[k]@);
                if let WriteView::Data { offset, bytes } = w {
                    if offset + bytes.len() > s0.len() {
                        assert(dev.bytes() == before);
                    }
                }
            }
            return res;
        }
        assert(views(ws@).subrange(0, i + 1).drop_last() =~= views(ws@).subrange(0, i as int));
        assert(views(ws@)[i as int] == ws@[i as int]@);
        i += 1;
    }
    assert(views(ws@).subrange(0, ws@.len() as int) =~= views(ws@));
    Ok(())
}

} // verus!
