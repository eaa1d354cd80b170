//! A sparse device held in memory: only 64 KiB chunks that were written
//! with something other than zeros hold memory, so a 1 PiB filesystem
//! formats into a few megabytes.
//!
//! Every operation the formatter issues is whole filesystem blocks at a
//! block boundary; a strict device refuses anything that is not whole
//! sectors, as a device enforcing its logical block does.
use std::collections::BTreeMap;
use vstd::prelude::*;
use crate::bytes::{copy_range, push_zeros, splice, zeros};
use crate::error::Error;
use crate::text::{append, chars_of, radix_chars, spec_dec, string_of};
use vstd::std_specs::iter::IteratorSpec;

verus! {

broadcast use vstd::std_specs::btree::group_btree_axioms;

/// Granularity of [`MemDevice`]'s sparse storage.
pub const CHUNK: u64 = 0x1_0000;

/// Bounds-check a request against a device size.
pub fn check_bounds(offset: u64, len: u64, size: u64) -> (r: Result<(), Error>)
    ensures
        r is Ok <==> offset + len <= size,
        r matches Err(e) ==> e == (Error::OutOfBounds { offset, len, size }),
{
    match offset.checked_add(len) {
        Some(end) => if end <= size {
            Ok(())
        } else {
            Err(Error::OutOfBounds { offset, len, size })
        },
        None => Err(Error::OutOfBounds { offset, len, size }),
    }
}

/// A sparse device held in memory.
pub struct MemDevice {
    chunks: BTreeMap<u64, Vec<u8>>,
    size: u64,
    logical: u32,
    physical: u32,
    strict: bool,
}

/// What a [`MemDevice`] holds: its bytes, and which chunks take memory.
pub struct MemDeviceView {
    /// Total addressable size in bytes.
    pub size: u64,
    /// The sector size it reports and, when strict, enforces.
    pub logical: u32,
    /// The physical sector size it reports.
    pub physical: u32,
    /// Refuse I/O that is not whole sectors at a sector boundary.
    pub strict: bool,
    /// Every byte of the device.
    pub contents: Seq<u8>,
    /// The chunks that hold memory.
    pub stored: Set<u64>,
}

/// The byte at `pos` of the chunks `m`: zero where no chunk is held.
pub open spec fn chunk_byte(m: Map<u64, Vec<u8>>, pos: int) -> u8 {
    let k = (pos / CHUNK as int) as u64;
    if m.contains_key(k) {
        m[k]@[pos % CHUNK as int]
    } else {
        0
    }
}

impl View for MemDevice {
    type V = MemDeviceView;

    closed spec fn view(&self) -> MemDeviceView {
        MemDeviceView {
            size: self.size,
            logical: self.logical,
            physical: self.physical,
            strict: self.strict,
            contents: Seq::new(self.size as nat, |pos: int| chunk_byte(self.chunks@, pos)),
            stored: self.chunks@.dom(),
        }
    }
}

/// The first byte of chunk `k`.
pub open spec fn chunk_start(k: u64) -> int {
    k * CHUNK
}

/// Chunk `k` shares a byte with `[offset, offset + len)`.
pub open spec fn touches(offset: int, len: int, k: u64) -> bool {
    len > 0 && chunk_start(k) < offset + len && offset < chunk_start(k) + CHUNK
}

/// Chunk `k` lies wholly inside `[offset, offset + len)`.
pub open spec fn covers(offset: int, len: int, k: u64) -> bool {
    offset <= chunk_start(k) && chunk_start(k) + CHUNK <= offset + len
}

/// Every byte of `data`, written at `offset`, that lands in chunk `k` is
/// zero.
pub open spec fn zero_in(offset: int, data: Seq<u8>, k: u64) -> bool {
    forall|i: int|
        0 <= i < data.len() && chunk_start(k) <= offset + i < chunk_start(k) + CHUNK ==> #[trigger] data[i]
            == 0
}

/// The chunks held after writing `data` at `offset`: a chunk given a
/// non-zero byte is held; a chunk wholly overwritten with zeros is let go;
/// the rest are as they were.
pub open spec fn stored_after(stored: Set<u64>, offset: int, data: Seq<u8>) -> Set<u64> {
    Set::new(
        |k: u64|
            if touches(offset, data.len() as int, k) {
                if zero_in(offset, data, k) {
                    stored.contains(k) && !covers(offset, data.len() as int, k)
                } else {
                    true
                }
            } else {
                stored.contains(k)
            },
    )
}

/// The `CHUNK` bytes of chunk `k`: the device's, zero past its end.
pub open spec fn chunk_contents(d: MemDeviceView, k: u64) -> Seq<u8> {
    Seq::new(
        CHUNK as nat,
        |i: int| if chunk_start(k) + i < d.size { d.contents[chunk_start(k) + i] } else { 0u8 },
    )
}

/// Some byte of `s` is not zero.
pub open spec fn has_nonzero(s: Seq<u8>) -> bool {
    exists|i: int| 0 <= i < s.len() && s[i] != 0
}

/// Whether some byte of `c` is not zero.
pub fn any_nonzero(c: &Vec<u8>) -> (r: bool)
    ensures
        r == has_nonzero(c@),
{
    let mut i: usize = 0;
    while i < c.len()
        invariant
            i <= c@.len(),
            forall|j: int| 0 <= j < i ==> c@[j] == 0,
        decreases c@.len() - i,
    {
        if c[i] != 0 {
            return true;
        }
        i += 1;
    }
    false
}

/// A device of `size` bytes, all zero, holding no memory.
pub open spec fn empty_device(size: u64, logical: u32, physical: u32, strict: bool) -> MemDeviceView {
    MemDeviceView { size, logical, physical, strict, contents: zeros(size as nat), stored: Set::empty() }
}

/// A strict device refuses `len` bytes at `offset` unless both are whole
/// sectors.
pub open spec fn misaligned(d: MemDeviceView, offset: u64, len: u64) -> bool {
    d.strict && (offset % (d.logical as u64) != 0 || len % (d.logical as u64) != 0)
}

/// A message naming a request that is not whole sectors.
fn misaligned_message(len: u64, offset: u64, sector: u64) -> (m: String)
    ensures
        m@ == spec_dec(len as nat) + " bytes at offset "@ + spec_dec(offset as nat) + " is not whole "@
            + spec_dec(sector as nat) + "-byte sectors"@,
{
    let mut v = radix_chars(len, 10);
    append(&mut v, chars_of(" bytes at offset ").as_slice());
    append(&mut v, radix_chars(offset, 10).as_slice());
    append(&mut v, chars_of(" is not whole ").as_slice());
    append(&mut v, radix_chars(sector, 10).as_slice());
    append(&mut v, chars_of("-byte sectors").as_slice());
    string_of(v.as_slice())
}

/// `std::io::Error::new` with `ErrorKind::InvalidInput`.
///
/// Nothing is stated of the error.
#[verifier::external_body]
fn invalid_input(msg: String) -> std::io::Error {
    std::io::Error::new(std::io::ErrorKind::InvalidInput, msg)
}

impl MemDevice {
    #[verifier::type_invariant]
    spec fn inv(self) -> bool {
        &&& forall|k: u64| #[trigger] self.chunks@.contains_key(k) ==> self.chunks@[k]@.len() == CHUNK
        &&& forall|k: u64, i: int|
            #![trigger self.chunks@[k]@[i]]
            self.chunks@.contains_key(k) && 0 <= i < CHUNK && chunk_start(k) + i >= self.size
                ==> self.chunks@[k]@[i] == 0
        &&& forall|k: u64| #[trigger] self.chunks@.contains_key(k) ==> chunk_start(k) < self.size
        &&& self.strict ==> self.logical > 0
    }

    /// A zeroed device of `size` bytes with 512-byte sectors.
    pub fn new(size: u64) -> (d: Self)
        ensures
            d@ == empty_device(size, 512, 512, false),
    {
        Self::with_sector_size(size, 512)
    }

    /// A zeroed device that reports the given sector size.
    pub fn with_sector_size(size: u64, sector_size: u32) -> (d: Self)
        ensures
            d@ == empty_device(size, sector_size, sector_size, false),
    {
        let d = MemDevice {
            chunks: BTreeMap::new(),
            size,
            logical: sector_size,
            physical: sector_size,
            strict: false,
        };
        assert(d@.contents =~= zeros(size as nat));
        assert(d@.stored =~= Set::<u64>::empty());
        d
    }

    /// A device that refuses any I/O that is not whole sectors at a sector
    /// boundary, as a device enforcing its logical block does.
    pub fn strict(size: u64, sector_size: u32) -> (d: Self)
        requires
            sector_size > 0,
        ensures
            d@ == empty_device(size, sector_size, sector_size, true),
    {
        let d = MemDevice {
            chunks: BTreeMap::new(),
            size,
            logical: sector_size,
            physical: sector_size,
            strict: true,
        };
        assert(d@.contents =~= zeros(size as nat));
        assert(d@.stored =~= Set::<u64>::empty());
        d
    }

    /// Total addressable size in bytes.
    pub fn size(&self) -> (r: u64)
        ensures
            r == self@.size,
            self@.contents.len() == r,
    {
        self.size
    }

    /// The smallest I/O the device accepts.
    pub fn logical_sector_size(&self) -> (r: u32)
        ensures
            r == self@.logical,
    {
        self.logical
    }

    /// The device's physical sector size.
    pub fn physical_sector_size(&self) -> (r: u32)
        ensures
            r == self@.physical,
    {
        self.physical
    }

    fn check_aligned(&self, offset: u64, len: u64) -> (r: Result<(), Error>)
        ensures
            r is Ok <==> !misaligned(self@, offset, len),
            r matches Err(e) ==> e matches Error::Io { offset: o, .. } && o == offset,
    {
        proof {
            use_type_invariant(self);
        }
        let sector = self.logical as u64;
        if self.strict && (offset % sector != 0 || len % sector != 0) {
            return Err(Error::io(offset, invalid_input(misaligned_message(len, offset, sector))));
        }
        Ok(())
    }

    /// Bytes of memory the device holds (saturating at `u64::MAX`, which
    /// no memory reaches).
    pub fn resident(&self) -> (r: u64)
        ensures
            r == (if self@.stored.len() * CHUNK <= u64::MAX { self@.stored.len() * CHUNK } else { u64::MAX as int }),
    {
        let n = self.chunks.len() as u64;
        match n.checked_mul(CHUNK) {
            Some(b) => b,
            None => u64::MAX,
        }
    }

    /// Read exactly `buf.len()` bytes starting at `offset`.
    pub fn read_at(&self, offset: u64, buf: &mut [u8]) -> (r: Result<(), Error>)
        ensures
            r is Ok <==> offset + old(buf)@.len() <= self@.size && !misaligned(self@, offset, old(buf)@.len() as u64),
            r is Ok ==> final(buf)@ == self@.contents.subrange(offset as int, offset + old(buf)@.len()),
            r matches Err(e) ==> {
                &&& final(buf)@ == old(buf)@
                &&& if offset + old(buf)@.len() > self@.size {
                    e == (Error::OutOfBounds { offset, len: old(buf)@.len() as u64, size: self@.size })
                } else {
                    e matches Error::Io { offset: o, .. } && o == offset
                }
            },
    {
        check_bounds(offset, buf.len() as u64, self.size)?;
        self.check_aligned(offset, buf.len() as u64)?;
        self.copy_out(offset, buf);
        Ok(())
    }

    fn copy_out(&self, offset: u64, buf: &mut [u8])
        requires
            offset + old(buf)@.len() <= self@.size,
        ensures
            final(buf)@ == self@.contents.subrange(offset as int, offset + old(buf)@.len()),
    {
        proof {
            use_type_invariant(self);
        }
        let ghost contents = self@.contents;
        let len = buf.len();
        let mut done: usize = 0;
        while done < len
            invariant
                len == old(buf)@.len(),
                buf@.len() == len,
                done <= len,
                offset + len <= self.size,
                contents == self@.contents,
                forall|k: u64| #[trigger] self.chunks@.contains_key(k) ==> self.chunks@[k]@.len() == CHUNK,
                forall|j: int| 0 <= j < done ==> buf@[j] == contents[offset + j],
            decreases len - done,
        {
            let pos = offset + done as u64;
            let idx = pos / CHUNK;
            let within = (pos % CHUNK) as usize;
            let room = CHUNK as usize - within;
            let n = if len - done < room { len - done } else { room };
            let ghost before = buf@;
            match self.chunks.get(&idx) {
                Some(c) => {
                    let mut j: usize = 0;
                    while j < n
                        invariant
                            j <= n,
                            within + n <= CHUNK,
                            done + n <= len,
                            buf@.len() == len,
                            c@.len() == CHUNK,
                            self.chunks@.contains_key(idx) && self.chunks@[idx] == *c,
                            pos == offset + done,
                            idx == pos / CHUNK,
                            within == pos % CHUNK,
                            before.len() == len,
                            forall|i: int| 0 <= i < done ==> buf@[i] == before[i],
                            forall|p: int| done <= p < done + j ==> #[trigger] buf@[p] == c@[within + p - done],
                        decreases n - j,
                    {
                        buf[done + j] = c[within + j];
                        j += 1;
                    }
                    proof {
                        assert forall|p: int| done <= p < done + n implies #[trigger] buf@[p] == contents[offset + p] by {
                            lemma_in_chunk(pos as int, p - done);
                        }
                    }
                },
                None => {
                    let mut j: usize = 0;
                    while j < n
                        invariant
                            j <= n,
                            done + n <= len,
                            buf@.len() == len,
                            before.len() == len,
                            forall|i: int| 0 <= i < done ==> buf@[i] == before[i],
                            forall|p: int| done <= p < done + j ==> #[trigger] buf@[p] == 0,
                        decreases n - j,
                    {
                        buf[done + j] = 0;
                        j += 1;
                    }
                    proof {
                        assert forall|p: int| done <= p < done + n implies #[trigger] buf@[p] == contents[offset + p] by {
                            lemma_in_chunk(pos as int, p - done);
                        }
                    }
                },
            }
            proof {
                assert forall|q: int| 0 <= q < done + n implies #[trigger] buf@[q] == contents[offset + q] by {
                    if q < done {
                        assert(buf@[q] == before[q]);
                    }
                }
            }
            done += n;
        }
        assert(buf@ =~= contents.subrange(offset as int, offset + len));
    }

    /// Write `n` bytes of `src`, from `from`, at `pos`, all in one chunk:
    /// zeros need no memory (a whole chunk of them lets the chunk go, part
    /// of one zeroes it where it is held); anything else is copied into the
    /// chunk, which is made if need be.
    fn write_piece(&mut self, pos: u64, src: &[u8], from: usize, n: usize)
        requires
            pos % CHUNK + n <= CHUNK,
            pos + n <= old(self)@.size,
            from + n <= src@.len(),
        ensures
            final(self)@.size == old(self)@.size,
            final(self)@.logical == old(self)@.logical,
            final(self)@.physical == old(self)@.physical,
            final(self)@.strict == old(self)@.strict,
            final(self)@.contents == Seq::new(
                old(self)@.size as nat,
                |p: int| if pos <= p < pos + n { src@[from + p - pos] } else { old(self)@.contents[p] },
            ),
            final(self)@.stored == (if (forall|i: int| from <= i < from + n ==> #[trigger] src@[i] == 0) {
                if n == CHUNK { old(self)@.stored.remove((pos / CHUNK) as u64) } else { old(self)@.stored }
            } else {
                old(self)@.stored.insert((pos / CHUNK) as u64)
            }),
    {
        proof {
            use_type_invariant(&*self);
        }
        let ghost m0 = self.chunks@;
        let ghost old_contents = self@.contents;
        assert(src@.len() <= usize::MAX) by {
            vstd::slice::axiom_spec_len(src);
        }
        let mut chunks: BTreeMap<u64, Vec<u8>> = BTreeMap::new();
        std::mem::swap(&mut chunks, &mut self.chunks);
        let idx = pos / CHUNK;
        let within = (pos % CHUNK) as usize;
        let mut zero = true;
        let mut j: usize = 0;
        while j < n
            invariant
                j <= n,
                from + n <= src@.len(),
                src@.len() <= usize::MAX,
                zero <==> forall|i: int| from <= i < from + j ==> #[trigger] src@[i] == 0,
            decreases n - j,
        {
            if src[from + j] != 0 {
                zero = false;
            }
            j += 1;
        }
        if zero {
            if n == CHUNK as usize {
                chunks.remove(&idx);
            } else {
                match chunks.remove(&idx) {
                    Some(mut c) => {
                        let mut j: usize = 0;
                        while j < n
                            invariant
                                j <= n,
                                within + n <= CHUNK,
                                c@.len() == CHUNK,
                                forall|q: int| 0 <= q < CHUNK && !(within <= q < within + j) ==> #[trigger] c@[q]
                                    == m0[idx]@[q],
                                forall|q: int| within <= q < within + j ==> #[trigger] c@[q] == 0,
                            decreases n - j,
                        {
                            c.set(within + j, 0);
                            j += 1;
                        }
                        chunks.insert(idx, c);
                    },
                    None => {},
                }
            }
        } else {
            let mut c = match chunks.remove(&idx) {
                Some(c) => c,
                None => vec![0u8; CHUNK as usize],
            };
            let ghost c0 = c@;
            let mut j: usize = 0;
            while j < n
                invariant
                    j <= n,
                    within + n <= CHUNK,
                    from + n <= src@.len(),
                    src@.len() <= usize::MAX,
                    c@.len() == CHUNK,
                    forall|q: int| 0 <= q < CHUNK && !(within <= q < within + j) ==> #[trigger] c@[q] == c0[q],
                    forall|q: int| within <= q < within + j ==> #[trigger] c@[q] == src@[from + q - within],
                decreases n - j,
            {
                c.set(within + j, src[from + j]);
                j += 1;
            }
            chunks.insert(idx, c);
        }
        self.chunks = chunks;
    }

    /// Write all of `buf` starting at `offset`.
    pub fn write_at(&mut self, offset: u64, buf: &[u8]) -> (r: Result<(), Error>)
        ensures
            r is Ok <==> offset + buf@.len() <= old(self)@.size && !misaligned(old(self)@, offset, buf@.len() as u64),
            r is Ok ==> final(self)@ == (MemDeviceView {
                contents: splice(old(self)@.contents, offset as int, buf@),
                stored: stored_after(old(self)@.stored, offset as int, buf@),
                ..old(self)@
            }),
            r matches Err(e) ==> {
                &&& final(self)@ == old(self)@
                &&& if offset + buf@.len() > old(self)@.size {
                    e == (Error::OutOfBounds { offset, len: buf@.len() as u64, size: old(self)@.size })
                } else {
                    e matches Error::Io { offset: o, .. } && o == offset
                }
            },
    {
        check_bounds(offset, buf.len() as u64, self.size)?;
        self.check_aligned(offset, buf.len() as u64)?;
        self.copy_in(offset, buf);
        Ok(())
    }

    fn copy_in(&mut self, offset: u64, buf: &[u8])
        requires
            offset + buf@.len() <= old(self)@.size,
        ensures
            final(self)@ == (MemDeviceView {
                contents: splice(old(self)@.contents, offset as int, buf@),
                stored: stored_after(old(self)@.stored, offset as int, buf@),
                ..old(self)@
            }),
    {
        let ghost v0 = self@;
        let len = buf.len();
        let mut done: usize = 0;
        assert(buf@.subrange(0, 0) =~= Seq::<u8>::empty());
        assert(splice(v0.contents, offset as int, Seq::<u8>::empty()) =~= v0.contents);
        assert(stored_after(v0.stored, offset as int, Seq::<u8>::empty()) =~= v0.stored);
        while done < len
            invariant
                len == buf@.len(),
                done <= len,
                offset + len <= v0.size,
                v0.contents.len() == v0.size,
                done == 0 || done == len || (offset + done) % (CHUNK as int) == 0,
                self@ == (MemDeviceView {
                    contents: splice(v0.contents, offset as int, buf@.subrange(0, done as int)),
                    stored: stored_after(v0.stored, offset as int, buf@.subrange(0, done as int)),
                    ..v0
                }),
            decreases len - done,
        {
            let pos = offset + done as u64;
            let within = pos % CHUNK;
            let room = (CHUNK - within) as usize;
            let n = if len - done < room { len - done } else { room };
            let ghost prev = self@;
            self.write_piece(pos, buf, done, n);
            proof {
                lemma_step(v0.contents, v0.stored, prev.contents, prev.stored, offset as int, buf@, done as int, n as int);
                vstd::arithmetic::div_mod::lemma_fundamental_div_mod(pos as int, CHUNK as int);
                if done + n < len {
                    vstd::arithmetic::div_mod::lemma_fundamental_div_mod_converse(
                        pos + n,
                        CHUNK as int,
                        (pos as int) / (CHUNK as int) + 1,
                        0,
                    );
                }
            }
            done += n;
        }
        assert(buf@.subrange(0, len as int) =~= buf@);
    }

    /// Zero `n` bytes at `pos`, all in one chunk: a whole chunk is let go,
    /// part of one is zeroed where it is held.
    fn zero_piece(&mut self, pos: u64, n: usize)
        requires
            pos % CHUNK + n <= CHUNK,
            pos + n <= old(self)@.size,
        ensures
            final(self)@.size == old(self)@.size,
            final(self)@.logical == old(self)@.logical,
            final(self)@.physical == old(self)@.physical,
            final(self)@.strict == old(self)@.strict,
            final(self)@.contents == Seq::new(
                old(self)@.size as nat,
                |p: int| if pos <= p < pos + n { 0u8 } else { old(self)@.contents[p] },
            ),
            final(self)@.stored == (if n == CHUNK {
                old(self)@.stored.remove((pos / CHUNK) as u64)
            } else {
                old(self)@.stored
            }),
    {
        proof {
            use_type_invariant(&*self);
        }
        let ghost m0 = self.chunks@;
        let mut chunks: BTreeMap<u64, Vec<u8>> = BTreeMap::new();
        std::mem::swap(&mut chunks, &mut self.chunks);
        let idx = pos / CHUNK;
        let within = (pos % CHUNK) as usize;
        if n == CHUNK as usize {
            chunks.remove(&idx);
        } else {
            match chunks.remove(&idx) {
                Some(mut c) => {
                    let mut j: usize = 0;
                    while j < n
                        invariant
                            j <= n,
                            within + n <= CHUNK,
                            c@.len() == CHUNK,
                            forall|q: int| 0 <= q < CHUNK && !(within <= q < within + j) ==> #[trigger] c@[q]
                                == m0[idx]@[q],
                            forall|q: int| within <= q < within + j ==> #[trigger] c@[q] == 0,
                        decreases n - j,
                    {
                        c.set(within + j, 0);
                        j += 1;
                    }
                    chunks.insert(idx, c);
                },
                None => {},
            }
        }
        self.chunks = chunks;
    }

    /// Make `len` bytes at `offset` read back as zero, letting go of every
    /// chunk wholly inside the range.
    pub fn write_zeroes(&mut self, offset: u64, len: u64) -> (r: Result<(), Error>)
        ensures
            r is Ok <==> offset + len <= old(self)@.size && !misaligned(old(self)@, offset, len),
            r is Ok ==> final(self)@ == (MemDeviceView {
                contents: splice(old(self)@.contents, offset as int, zeros(len as nat)),
                stored: stored_after(old(self)@.stored, offset as int, zeros(len as nat)),
                ..old(self)@
            }),
            r matches Err(e) ==> {
                &&& final(self)@ == old(self)@
                &&& if offset + len > old(self)@.size {
                    e == (Error::OutOfBounds { offset, len, size: old(self)@.size })
                } else {
                    e matches Error::Io { offset: o, .. } && o == offset
                }
            },
    {
        check_bounds(offset, len, self.size)?;
        self.check_aligned(offset, len)?;
        let ghost v0 = self@;
        let ghost data = zeros(len as nat);
        let mut done: u64 = 0;
        assert(data.subrange(0, 0) =~= Seq::<u8>::empty());
        assert(splice(v0.contents, offset as int, Seq::<u8>::empty()) =~= v0.contents);
        assert(stored_after(v0.stored, offset as int, Seq::<u8>::empty()) =~= v0.stored);
        while done < len
            invariant
                done <= len,
                offset + len <= v0.size,
                v0.contents.len() == v0.size,
                data == zeros(len as nat),
                done == 0 || done == len || (offset + done) % (CHUNK as int) == 0,
                self@ == (MemDeviceView {
                    contents: splice(v0.contents, offset as int, data.subrange(0, done as int)),
                    stored: stored_after(v0.stored, offset as int, data.subrange(0, done as int)),
                    ..v0
                }),
            decreases len - done,
        {
            let pos = offset + done;
            let within = pos % CHUNK;
            let room = CHUNK - within;
            let n = if len - done < room { len - done } else { room };
            let ghost prev = self@;
            self.zero_piece(pos, n as usize);
            proof {
                lemma_step(v0.contents, v0.stored, prev.contents, prev.stored, offset as int, data, done as int, n as int);
                assert(forall|i: int| done <= i < done + n ==> #[trigger] data[i] == 0);
                assert(self@.contents =~= splice(v0.contents, offset as int, data.subrange(0, done + n)));
                vstd::arithmetic::div_mod::lemma_fundamental_div_mod(pos as int, CHUNK as int);
                if done + n < len {
                    vstd::arithmetic::div_mod::lemma_fundamental_div_mod_converse(
                        pos + n,
                        CHUNK as int,
                        (pos as int) / (CHUNK as int) + 1,
                        0,
                    );
                }
            }
            done += n;
        }
        assert(data.subrange(0, len as int) =~= data);
        Ok(())
    }

    /// Every chunk holding a non-zero byte, as `(byte offset, contents)`,
    /// by offset.
    pub fn nonzero_chunks(&self) -> (r: Vec<(u64, Vec<u8>)>)
        ensures
            forall|i: int, j: int| 0 <= i < j < r@.len() ==> r@[i].0 < r@[j].0,
            forall|i: int|
                #![trigger r@[i]]
                0 <= i < r@.len() ==> {
                    &&& r@[i].0 % CHUNK == 0
                    &&& r@[i].1@ == chunk_contents(self@, (r@[i].0 / CHUNK) as u64)
                    &&& has_nonzero(r@[i].1@)
                },
            forall|k: u64|
                #![trigger chunk_contents(self@, k)]
                has_nonzero(chunk_contents(self@, k)) ==> exists|i: int|
                    0 <= i < r@.len() && r@[i].0 == chunk_start(k),
    {
        proof {
            use_type_invariant(self);
        }
        let mut out: Vec<(u64, Vec<u8>)> = Vec::new();
        let ghost mut from: Seq<int> = Seq::empty();
        proof {
            lemma_u64_keys_ordered();
        }
        let iter = self.chunks.iter();
        let ghost sq = iter.remaining();
        proof {
            lemma_iter_in_order(&self.chunks, sq);
        }
        let ghost mut cnt: int = 0;
        for (k, c) in it: iter
            invariant
                sq == it.seq(),
                cnt == it.index(),
                forall|j: int| #![trigger sq[j]] 0 <= j < sq.len() ==> {
                    &&& self.chunks@.contains_key(*sq[j].0)
                    &&& self.chunks@[*sq[j].0] == *sq[j].1
                },
                forall|a: int, b: int| 0 <= a < b < sq.len() ==> *sq[a].0 < *sq[b].0,
                forall|q: u64| #[trigger] self.chunks@.contains_key(q) ==> exists|j: int|
                    0 <= j < sq.len() && *sq[j].0 == q,
                forall|k: u64| #[trigger] self.chunks@.contains_key(k) ==> self.chunks@[k]@.len() == CHUNK,
                forall|k: u64| #[trigger] self.chunks@.contains_key(k) ==> chunk_start(k) < self.size,
                from.len() == out@.len(),
                forall|i: int, j: int| 0 <= i < j < from.len() ==> from[i] < from[j],
                forall|i: int| #![trigger from[i]] 0 <= i < from.len() ==> {
                    &&& 0 <= from[i] < cnt
                    &&& out@[i].0 == chunk_start(*sq[from[i]].0)
                    &&& out@[i].1@ == sq[from[i]].1@
                    &&& has_nonzero(out@[i].1@)
                },
                forall|j: int| #![trigger sq[j]] 0 <= j < cnt && has_nonzero(sq[j].1@) ==> exists|i: int|
                    0 <= i < from.len() && from[i] == j,
        {
            let ghost j = cnt;
            assert(*k == *sq[j].0 && *c == *sq[j].1);
            let ghost from0 = from;
            if any_nonzero(c) {
                proof {
                    from = from.push(j);
                }
                let copy = c.clone();
                assert(copy@ =~= c@);
                out.push((*k * CHUNK, copy));
            }
            proof {
                assert forall|j2: int| #![trigger sq[j2]] 0 <= j2 < cnt + 1 && has_nonzero(sq[j2].1@) implies exists|i: int|
                    0 <= i < from.len() && from[i] == j2 by {
                    if j2 == j {
                        assert(from[from.len() - 1] == j);
                    } else {
                        let i = choose|i: int| 0 <= i < from0.len() && from0[i] == j2;
                        assert(from[i] == j2);
                    }
                }
                cnt = cnt + 1;
            }
        }
        assert(cnt == sq.len());
        proof {
            self.lemma_nonzero_out(sq, from, out@);
        }
        out
    }

    proof fn lemma_nonzero_out(&self, sq: Seq<(&u64, &Vec<u8>)>, from: Seq<int>, out: Seq<(u64, Vec<u8>)>)
        requires
            forall|j: int| #![trigger sq[j]] 0 <= j < sq.len() ==> {
                &&& self.chunks@.contains_key(*sq[j].0)
                &&& self.chunks@[*sq[j].0] == *sq[j].1
            },
            forall|a: int, b: int| 0 <= a < b < sq.len() ==> *sq[a].0 < *sq[b].0,
            forall|q: u64| #[trigger] self.chunks@.contains_key(q) ==> exists|j: int|
                0 <= j < sq.len() && *sq[j].0 == q,
            forall|k: u64| #[trigger] self.chunks@.contains_key(k) ==> self.chunks@[k]@.len() == CHUNK,
            forall|k: u64, i: int|
                #![trigger self.chunks@[k]@[i]]
                self.chunks@.contains_key(k) && 0 <= i < CHUNK && chunk_start(k) + i >= self.size
                    ==> self.chunks@[k]@[i] == 0,
            from.len() == out.len(),
            forall|i: int, j: int| 0 <= i < j < from.len() ==> from[i] < from[j],
            forall|i: int| #![trigger from[i]] 0 <= i < from.len() ==> {
                &&& 0 <= from[i] < sq.len()
                &&& out[i].0 == chunk_start(*sq[from[i]].0)
                &&& out[i].1@ == sq[from[i]].1@
                &&& has_nonzero(out[i].1@)
            },
            forall|j: int| #![trigger sq[j]] 0 <= j < sq.len() && has_nonzero(sq[j].1@) ==> exists|i: int|
                0 <= i < from.len() && from[i] == j,
        ensures
            forall|i: int, j: int| 0 <= i < j < out.len() ==> out[i].0 < out[j].0,
            forall|i: int|
                #![trigger out[i]]
                0 <= i < out.len() ==> {
                    &&& out[i].0 % CHUNK == 0
                    &&& out[i].1@ == chunk_contents(self@, (out[i].0 / CHUNK) as u64)
                    &&& has_nonzero(out[i].1@)
                },
            forall|k: u64|
                #![trigger chunk_contents(self@, k)]
                has_nonzero(chunk_contents(self@, k)) ==> exists|i: int|
                    0 <= i < out.len() && out[i].0 == chunk_start(k),
    {
        assert forall|i: int, j: int| 0 <= i < j < out.len() implies out[i].0 < out[j].0 by {
            assert(from[i] < from[j]);
            assert(*sq[from[i]].0 < *sq[from[j]].0);
        }
        assert forall|i: int| #![trigger out[i]] 0 <= i < out.len() implies {
            &&& out[i].0 % CHUNK == 0
            &&& out[i].1@ == chunk_contents(self@, (out[i].0 / CHUNK) as u64)
            &&& has_nonzero(out[i].1@)
        } by {
            let j = from[i];
            let q = *sq[j].0;
            assert(self.chunks@.contains_key(q));
            self.lemma_chunk_contents(q);
            assert(out[i].0 / CHUNK == q);
        }
        assert forall|q: u64| #![trigger chunk_contents(self@, q)]
            has_nonzero(chunk_contents(self@, q)) implies exists|i: int|
                0 <= i < out.len() && out[i].0 == chunk_start(q) by {
            self.lemma_nonzero_held(q);
            let j = choose|j: int| 0 <= j < sq.len() && *sq[j].0 == q;
            assert(has_nonzero(sq[j].1@));
            let i = choose|i: int| 0 <= i < from.len() && from[i] == j;
            assert(out[i].0 == chunk_start(q));
        }
    }

    /// A held chunk's bytes are its contents.
    proof fn lemma_chunk_contents(&self, q: u64)
        requires
            self.chunks@.contains_key(q),
            self.chunks@[q]@.len() == CHUNK,
            forall|k: u64, i: int|
                #![trigger self.chunks@[k]@[i]]
                self.chunks@.contains_key(k) && 0 <= i < CHUNK && chunk_start(k) + i >= self.size
                    ==> self.chunks@[k]@[i] == 0,
        ensures
            self.chunks@[q]@ == chunk_contents(self@, q),
    {
        assert forall|b: int| 0 <= b < CHUNK implies #[trigger] self.chunks@[q]@[b] == chunk_contents(self@, q)[b] by {
            if chunk_start(q) + b < self.size {
                lemma_in_chunk(chunk_start(q), b);
            }
        }
        assert(self.chunks@[q]@ =~= chunk_contents(self@, q));
    }

    /// A chunk with a non-zero byte is held, and holds that byte.
    proof fn lemma_nonzero_held(&self, q: u64)
        requires
            has_nonzero(chunk_contents(self@, q)),
            forall|k: u64| #[trigger] self.chunks@.contains_key(k) ==> self.chunks@[k]@.len() == CHUNK,
            forall|k: u64, i: int|
                #![trigger self.chunks@[k]@[i]]
                self.chunks@.contains_key(k) && 0 <= i < CHUNK && chunk_start(k) + i >= self.size
                    ==> self.chunks@[k]@[i] == 0,
        ensures
            self.chunks@.contains_key(q),
            has_nonzero(self.chunks@[q]@),
    {
        let w = choose|b: int| 0 <= b < CHUNK && chunk_contents(self@, q)[b] != 0;
        assert(chunk_start(q) + w < self.size);
        lemma_in_chunk(chunk_start(q), w);
        assert(self.chunks@.contains_key(q));
        assert(self.chunks@[q]@[w] != 0);
    }
}

/// One piece of a write, in one chunk, takes the device from having
/// written the first `done` bytes of `data` to having written `done + n`.
proof fn lemma_step(
    c0: Seq<u8>,
    s0: Set<u64>,
    c1: Seq<u8>,
    s1: Set<u64>,
    offset: int,
    data: Seq<u8>,
    done: int,
    n: int,
)
    requires
        0 <= offset,
        0 <= done,
        1 <= n,
        done + n <= data.len(),
        offset + data.len() <= c0.len(),
        c0.len() <= u64::MAX,
        done == 0 || (offset + done) % CHUNK as int == 0,
        (offset + done) % CHUNK as int + n <= CHUNK,
        done + n == data.len() || (offset + done + n) % CHUNK as int == 0,
        c1 == splice(c0, offset, data.subrange(0, done)),
        s1 == stored_after(s0, offset, data.subrange(0, done)),
    ensures
        splice(c0, offset, data.subrange(0, done + n)) == Seq::new(
            c0.len(),
            |p: int| if offset + done <= p < offset + done + n { data[done + p - (offset + done)] } else { c1[p] },
        ),
        stored_after(s0, offset, data.subrange(0, done + n)) == (if (forall|i: int|
            done <= i < done + n ==> #[trigger] data[i] == 0) {
            if n == CHUNK { s1.remove(((offset + done) / CHUNK as int) as u64) } else { s1 }
        } else {
            s1.insert(((offset + done) / CHUNK as int) as u64)
        }),
{
    let pos = offset + done;
    let k = (pos / CHUNK as int) as u64;
    let d0 = data.subrange(0, done);
    let d1 = data.subrange(0, done + n);
    assert(splice(c0, offset, d1) =~= Seq::new(
        c0.len(),
        |p: int| if pos <= p < pos + n { data[done + p - pos] } else { c1[p] },
    ));
    vstd::arithmetic::div_mod::lemma_fundamental_div_mod(pos, CHUNK as int);
    let zero = forall|i: int| done <= i < done + n ==> #[trigger] data[i] == 0;
    let target = if zero {
        if n == CHUNK { s1.remove(k) } else { s1 }
    } else {
        s1.insert(k)
    };
    assert forall|j: u64| #[trigger] stored_after(s0, offset, d1).contains(j) == target.contains(j) by {
        if j == k {
            assert(!touches(offset, d0.len() as int, j));
            assert(touches(offset, d1.len() as int, j));
            assert(covers(offset, d1.len() as int, j) <==> n == CHUNK);
            if zero {
                assert forall|i: int| 0 <= i < d1.len() && chunk_start(j) <= offset + i < chunk_start(j) + CHUNK implies #[trigger] d1[i] == 0 by {
                    assert(d1[i] == data[i]);
                }
                assert(zero_in(offset, d1, j));
            } else {
                let w = choose|i: int| done <= i < done + n && data[i] != 0;
                assert(d1[w] == data[w]);
                assert(!zero_in(offset, d1, j));
            }
        } else {
            assert(touches(offset, d1.len() as int, j) == touches(offset, d0.len() as int, j));
            assert(covers(offset, d1.len() as int, j) == covers(offset, d0.len() as int, j));
            if touches(offset, d0.len() as int, j) {
                assert(zero_in(offset, d1, j) == zero_in(offset, d0, j)) by {
                    if zero_in(offset, d0, j) {
                        assert forall|i: int| 0 <= i < d1.len() && chunk_start(j) <= offset + i < chunk_start(j) + CHUNK implies #[trigger] d1[i] == 0 by {
                            assert(d0[i] == data[i]);
                        }
                    }
                    if zero_in(offset, d1, j) {
                        assert forall|i: int| 0 <= i < d0.len() && chunk_start(j) <= offset + i < chunk_start(j) + CHUNK implies #[trigger] d0[i] == 0 by {
                            assert(d1[i] == data[i]);
                        }
                    }
                }
            }
        }
    }
    assert(stored_after(s0, offset, d1) =~= target);
}

/// `u64` keys are ordered as a `BTreeMap` needs them to be.
proof fn lemma_u64_keys_ordered()
    ensures
        vstd::std_specs::btree::key_obeys_cmp_spec::<u64>(),
{
    assert(vstd::laws_cmp::obeys_cmp::<u64>());
}

/// Walking a map of chunks gives every held chunk once, by key.
proof fn lemma_iter_in_order(m: &BTreeMap<u64, Vec<u8>>, sq: Seq<(&u64, &Vec<u8>)>)
    requires
        sq == vstd::std_specs::btree::spec_btree_map_iter(m).remaining(),
        vstd::std_specs::btree::increasing_seq(sq.map_values(|kv: (&u64, &Vec<u8>)| *kv.0)),
    ensures
        forall|j: int| #![trigger sq[j]] 0 <= j < sq.len() ==> {
            &&& m@.contains_key(*sq[j].0)
            &&& m@[*sq[j].0] == *sq[j].1
        },
        forall|a: int, b: int| 0 <= a < b < sq.len() ==> *sq[a].0 < *sq[b].0,
        forall|q: u64| #[trigger] m@.contains_key(q) ==> exists|j: int| 0 <= j < sq.len() && *sq[j].0 == q,
{
    assert(vstd::laws_cmp::obeys_cmp::<u64>());
    let ks = sq.map_values(|kv: (&u64, &Vec<u8>)| *kv.0);
    assert forall|a: int, b: int| 0 <= a < b < sq.len() implies *sq[a].0 < *sq[b].0 by {
        assert(ks[a] == *sq[a].0);
        assert(ks[b] == *sq[b].0);
        assert(vstd::std_specs::cmp::OrdSpec::cmp_spec(&ks[a], &ks[b]) is Less);
    }
    assert forall|q: u64| #[trigger] m@.contains_key(q) implies exists|j: int|
        0 <= j < sq.len() && *sq[j].0 == q by {
        assert(sq.contains((&q, &m@[q])));
    }
}

/// Position `pos + i`, `i` bytes on within the chunk of `pos`, is in that
/// chunk.
proof fn lemma_in_chunk(pos: int, i: int)
    requires
        pos >= 0,
        0 <= i,
        pos % CHUNK as int + i < CHUNK,
    ensures
        (pos + i) / CHUNK as int == pos / CHUNK as int,
        (pos + i) % CHUNK as int == pos % CHUNK as int + i,
{
    vstd::arithmetic::div_mod::lemma_fundamental_div_mod(pos, CHUNK as int);
    vstd::arithmetic::div_mod::lemma_fundamental_div_mod_converse(
        pos + i,
        CHUNK as int,
        pos / CHUNK as int,
        pos % CHUNK as int + i,
    );
}

/// A device a filesystem is read from and laid onto.
///
/// Every operation the formatter issues is whole filesystem blocks at a
/// block boundary, so a device that refuses anything but whole sectors
/// still takes them.
pub trait BlockDevice {
    /// Every byte of the device.
    spec fn bytes(&self) -> Seq<u8>;

    /// Every request that lies within the device succeeds.
    spec fn reliable(&self) -> bool;

    /// Total addressable size in bytes.
    fn size(&self) -> (r: u64)
        ensures
            r == self.bytes().len(),
    ;

    /// The smallest I/O the device accepts. Defaults to 512.
    fn logical_sector_size(&self) -> (r: u32)
        default_ensures
            r == 512,
    {
        512
    }

    /// The device's physical sector size. Defaults to the logical sector
    /// size.
    fn physical_sector_size(&self) -> (r: u32)
        default_ensures
            call_ensures(Self::logical_sector_size, (self,), r),
    {
        self.logical_sector_size()
    }

    /// Read exactly `buf.len()` bytes starting at `offset`.
    fn read_at(&self, offset: u64, buf: &mut [u8]) -> (r: Result<(), Error>)
        ensures
            final(buf)@.len() == old(buf)@.len(),
            r is Ok ==> offset + old(buf)@.len() <= self.bytes().len() && final(buf)@
                == self.bytes().subrange(offset as int, offset + old(buf)@.len()),
            self.reliable() && offset + old(buf)@.len() <= self.bytes().len() ==> r is Ok,
    ;

    /// Write all of `buf` starting at `offset`. A write that runs past the
    /// end is refused before it touches the device.
    fn write_at(&mut self, offset: u64, buf: &[u8]) -> (r: Result<(), Error>)
        ensures
            final(self).bytes().len() == old(self).bytes().len(),
            final(self).reliable() == old(self).reliable(),
            r is Ok ==> offset + buf@.len() <= old(self).bytes().len() && final(self).bytes() == splice(
                old(self).bytes(),
                offset as int,
                buf@,
            ),
            old(self).reliable() && offset + buf@.len() <= old(self).bytes().len() ==> r is Ok,
            offset + buf@.len() > old(self).bytes().len() ==> {
                &&& r == Err::<(), Error>(
                    Error::OutOfBounds { offset, len: buf@.len() as u64, size: old(self).bytes().len() as u64 },
                )
                &&& final(self).bytes() == old(self).bytes()
            },
    ;

    /// Flush buffered writes to stable storage.
    fn flush(&mut self) -> (r: Result<(), Error>)
        ensures
            final(self).bytes() == old(self).bytes(),
            final(self).reliable() == old(self).reliable(),
            old(self).reliable() ==> r is Ok,
    ;

    /// Make `len` bytes at `offset` read back as zero. The default writes
    /// zeros in 1 MiB pieces.
    fn write_zeroes(&mut self, offset: u64, len: u64) -> (r: Result<(), Error>)
        ensures
            final(self).bytes().len() == old(self).bytes().len(),
            final(self).reliable() == old(self).reliable(),
            r is Ok && len > 0 ==> offset + len <= old(self).bytes().len() && final(self).bytes() == splice(
                old(self).bytes(),
                offset as int,
                zeros(len as nat),
            ),
            r is Ok && len == 0 ==> final(self).bytes() == old(self).bytes(),
            old(self).reliable() && offset + len <= old(self).bytes().len() ==> r is Ok,
    {
        let piece: u64 = 0x10_0000;
        let n0: u64 = if len < piece { len } else { piece };
        let n0: u64 = if n0 < 1 { 1 } else { n0 };
        let mut zeroes: Vec<u8> = Vec::new();
        push_zeros(&mut zeroes, n0 as usize);
        let ghost s0 = self.bytes();
        let size = self.size();
        let mut done: u64 = 0;
        while done < len
            invariant
                done <= len,
                size == s0.len(),
                piece == 0x10_0000,
                1 <= n0 <= piece,
                zeroes@ == zeros(n0 as nat),
                s0 == old(self).bytes(),
                self.bytes().len() == s0.len(),
                self.reliable() == old(self).reliable(),
                done > 0 ==> offset + done <= s0.len(),
                done > 0 ==> self.bytes() == splice(s0, offset as int, zeros(done as nat)),
                done == 0 ==> self.bytes() == s0,
            decreases len - done,
        {
            let n: u64 = if len - done < n0 { len - done } else { n0 };
            let nu = n as usize;
            assert(nu == n);
            let part = copy_range(zeroes.as_slice(), 0, nu);
            assert(part@ =~= zeros(n as nat));
            let ghost before = self.bytes();
            let w = self.write_at(offset + done, part.as_slice());
            if w.is_err() {
                return w;
            }
            proof {
                if done == 0 {
                    assert(splice(s0, offset as int, zeros(0)) =~= s0);
                }
                lemma_splice_zeros(s0, offset as int, done as int, n as int);
            }
            done += n;
        }
        Ok(())
    }
}

/// Zeroing `n` more bytes right after `done` zeroed ones zeroes `done + n`.
proof fn lemma_splice_zeros(s: Seq<u8>, off: int, done: int, n: int)
    requires
        0 <= off,
        0 <= done,
        0 <= n,
        off + done + n <= s.len(),
    ensures
        splice(splice(s, off, zeros(done as nat)), off + done, zeros(n as nat)) == splice(
            s,
            off,
            zeros((done + n) as nat),
        ),
{
    assert(splice(splice(s, off, zeros(done as nat)), off + done, zeros(n as nat)) =~= splice(
        s,
        off,
        zeros((done + n) as nat),
    ));
}

impl BlockDevice for MemDevice {
    open spec fn bytes(&self) -> Seq<u8> {
        self@.contents
    }

    open spec fn reliable(&self) -> bool {
        !self@.strict
    }

    fn size(&self) -> (r: u64) {
        MemDevice::size(self)
    }

    fn logical_sector_size(&self) -> (r: u32)
        ensures
            r == self@.logical,
    {
        MemDevice::logical_sector_size(self)
    }

    fn physical_sector_size(&self) -> (r: u32)
        ensures
            r == self@.physical,
    {
        MemDevice::physical_sector_size(self)
    }

    fn read_at(&self, offset: u64, buf: &mut [u8]) -> (r: Result<(), Error>) {
        MemDevice::read_at(self, offset, buf)
    }

    fn write_at(&mut self, offset: u64, buf: &[u8]) -> (r: Result<(), Error>) {
        MemDevice::write_at(self, offset, buf)
    }

    fn flush(&mut self) -> (r: Result<(), Error>) {
        Ok(())
    }

    fn write_zeroes(&mut self, offset: u64, len: u64) -> (r: Result<(), Error>) {
        let r = MemDevice::write_zeroes(self, offset, len);
        assert(r is Ok && len == 0 ==> splice(old(self)@.contents, offset as int, zeros(0)) =~= old(self)@.contents);
        r
    }
}

} // verus!
