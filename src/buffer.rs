use vstd::prelude::*;

use crate::scan::{marker_at, marker_free, LONGEST_MARKER};

verus! {

/// The bytes read but not yet written, with the position from which the
/// next scan for markers starts. No complete marker begins before that
/// position.
pub struct ByteBuffer {
    bytes: Vec<u8>,
    scan_from: usize,
}

/// Copies `v[from..to]`.
pub fn copy_range(v: &[u8], from: usize, to: usize) -> (r: Vec<u8>)
    requires
        from <= to <= v@.len(),
    ensures
        r@ == v@.subrange(from as int, to as int),
{
    let mut r: Vec<u8> = Vec::new();
    let mut i: usize = from;
    while i < to
        invariant
            from <= i <= to <= v@.len(),
            r@ == v@.subrange(from as int, i as int),
        decreases to - i,
    {
        r.push(v[i]);
        assert(r@ =~= v@.subrange(from as int, i + 1));
        i = i + 1;
    }
    r
}

impl ByteBuffer {
    pub closed spec fn pending(&self) -> Seq<u8> {
        self.bytes@
    }

    pub closed spec fn scan_start(&self) -> nat {
        self.scan_from as nat
    }

    pub open spec fn wf(&self) -> bool {
        &&& self.scan_start() <= self.pending().len()
        &&& marker_free(self.pending(), 0, self.scan_start() as int)
    }

    pub fn new() -> (r: ByteBuffer)
        ensures
            r.wf(),
            r.pending() == Seq::<u8>::empty(),
            r.scan_start() == 0,
    {
        ByteBuffer { bytes: Vec::new(), scan_from: 0 }
    }

    pub fn len(&self) -> (r: usize)
        ensures
            r == self.pending().len(),
    {
        self.bytes.len()
    }

    pub fn as_slice(&self) -> (r: &[u8])
        ensures
            r@ == self.pending(),
    {
        self.bytes.as_slice()
    }

    /// Where the next scan must start: nothing before it needs another look.
    pub fn safe_scan_start(&self) -> (r: usize)
        ensures
            r == self.scan_start(),
    {
        self.scan_from
    }

    /// Appends a chunk. Scanning resumes three bytes before the old end, so
    /// that a clear-screen sequence begun in an earlier chunk is seen whole.
    pub fn ingest(&mut self, chunk: &[u8])
        requires
            old(self).wf(),
            old(self).pending().len() + chunk@.len() <= usize::MAX,
        ensures
            final(self).wf(),
            final(self).pending() == old(self).pending() + chunk@,
            final(self).scan_start() == if old(self).pending().len() < LONGEST_MARKER - 1 {
                0
            } else if old(self).scan_start() < old(self).pending().len() - (LONGEST_MARKER - 1) {
                old(self).scan_start() as int
            } else {
                old(self).pending().len() - (LONGEST_MARKER - 1)
            },
    {
        let ghost before = self.bytes@;
        let n = self.bytes.len();
        let keep: usize = if n < LONGEST_MARKER - 1 {
            0
        } else {
            n - (LONGEST_MARKER - 1)
        };
        if keep < self.scan_from {
            self.scan_from = keep;
        }
        self.bytes.extend_from_slice(chunk);
        assert(self.bytes@ =~= before + chunk@);
        assert forall|i: int| 0 <= i < self.scan_from implies !#[trigger] marker_at(
            self.bytes@,
            i,
        ) by {
            assert(!marker_at(before, i));
            assert(self.bytes@[i] == before[i]);
            if i + 4 <= n {
                assert(self.bytes@[i + 1] == before[i + 1]);
                assert(self.bytes@[i + 2] == before[i + 2]);
                assert(self.bytes@[i + 3] == before[i + 3]);
            }
        }
    }

    /// Records that no marker begins in `[scan_start, upto)`.
    pub fn advance_scan(&mut self, upto: usize)
        requires
            old(self).wf(),
            old(self).scan_start() <= upto <= old(self).pending().len(),
            marker_free(old(self).pending(), old(self).scan_start() as int, upto as int),
        ensures
            final(self).wf(),
            final(self).pending() == old(self).pending(),
            final(self).scan_start() == upto,
    {
        self.scan_from = upto;
    }

    /// Removes and returns the first `offset` bytes.
    pub fn drain_through(&mut self, offset: usize) -> (r: Vec<u8>)
        requires
            old(self).wf(),
            offset <= old(self).pending().len(),
        ensures
            final(self).wf(),
            r@ == old(self).pending().subrange(0, offset as int),
            final(self).pending() == old(self).pending().subrange(
                offset as int,
                old(self).pending().len() as int,
            ),
            final(self).scan_start() == if old(self).scan_start() >= offset {
                old(self).scan_start() - offset
            } else {
                0
            },
    {
        let ghost before = self.bytes@;
        let n = self.bytes.len();
        let head = copy_range(self.bytes.as_slice(), 0, offset);
        let rest = copy_range(self.bytes.as_slice(), offset, n);
        self.bytes = rest;
        if self.scan_from >= offset {
            self.scan_from = self.scan_from - offset;
        } else {
            self.scan_from = 0;
        }
        assert forall|i: int| 0 <= i < self.scan_from implies !#[trigger] marker_at(
            self.bytes@,
            i,
        ) by {
            assert(!marker_at(before, i + offset));
            assert(self.bytes@[i] == before[i + offset]);
            if i + 4 <= self.bytes@.len() {
                assert(self.bytes@[i + 1] == before[i + offset + 1]);
                assert(self.bytes@[i + 2] == before[i + offset + 2]);
                assert(self.bytes@[i + 3] == before[i + offset + 3]);
            }
        }
        head
    }
}

} // verus!
