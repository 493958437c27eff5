use vstd::prelude::*;

verus! {

pub const LINE_FEED: u8 = 0x0a;

pub const CARRIAGE_RETURN: u8 = 0x0d;

pub const ESCAPE: u8 = 0x1b;

/// The clear-screen sequence `ESC [ 2 J`.
pub const CLEAR_SCREEN: [u8; 4] = [0x1b, 0x5b, 0x32, 0x4a];

/// Length of the longest recognized marker.
pub const LONGEST_MARKER: usize = 4;

/// Byte `j` of the clear-screen sequence.
pub open spec fn clear_byte(j: int) -> u8 {
    if j == 0 {
        0x1bu8
    } else if j == 1 {
        0x5bu8
    } else if j == 2 {
        0x32u8
    } else {
        0x4au8
    }
}

/// The whole clear-screen sequence stands in `s` from position `i`.
pub open spec fn clear_at(s: Seq<u8>, i: int) -> bool {
    &&& 0 <= i
    &&& i + 4 <= s.len()
    &&& s[i] == clear_byte(0)
    &&& s[i + 1] == clear_byte(1)
    &&& s[i + 2] == clear_byte(2)
    &&& s[i + 3] == clear_byte(3)
}

/// A complete marker starts at position `i` of `s`.
pub open spec fn marker_at(s: Seq<u8>, i: int) -> bool {
    &&& 0 <= i < s.len()
    &&& (s[i] == LINE_FEED || s[i] == CARRIAGE_RETURN || clear_at(s, i))
}

/// No complete marker starts in `s` at a position in `[from, to)`.
pub open spec fn marker_free(s: Seq<u8>, from: int, to: int) -> bool {
    forall|i: int| from <= i < to ==> !#[trigger] marker_at(s, i)
}

/// `needle` stands in `haystack` from position `i`.
pub open spec fn occurs_at(haystack: Seq<u8>, needle: Seq<u8>, i: int) -> bool {
    &&& 0 <= i
    &&& i + needle.len() <= haystack.len()
    &&& haystack.subrange(i, i + needle.len()) == needle
}

#[derive(Clone, Copy, Debug, PartialEq, Eq, Structural)]
pub enum BoundaryKind {
    NewLine,
    CarriageReturn,
    ClearScreen,
}

impl BoundaryKind {
    pub open spec fn spec_len(self) -> nat {
        match self {
            BoundaryKind::ClearScreen => 4,
            _ => 1,
        }
    }

    /// Number of bytes the marker of this kind occupies.
    pub fn len(&self) -> (r: usize)
        ensures
            r == self.spec_len(),
    {
        match self {
            BoundaryKind::ClearScreen => 4,
            _ => 1,
        }
    }
}

/// The kind of the marker at `i`, read off its first byte.
pub open spec fn kind_at(s: Seq<u8>, i: int) -> BoundaryKind {
    if s[i] == LINE_FEED {
        BoundaryKind::NewLine
    } else if s[i] == CARRIAGE_RETURN {
        BoundaryKind::CarriageReturn
    } else {
        BoundaryKind::ClearScreen
    }
}

/// A marker found in a buffer: its kind and the range `[start, end)` it covers.
#[derive(Clone, Copy, Debug, PartialEq, Eq, Structural)]
pub struct Boundary {
    pub kind: BoundaryKind,
    pub start: usize,
    pub end: usize,
}

/// The boundary is the first marker of `s` at or after `from`.
pub open spec fn is_first_boundary(s: Seq<u8>, from: int, b: Boundary) -> bool {
    &&& from <= b.start
    &&& marker_free(s, from, b.start as int)
    &&& marker_at(s, b.start as int)
    &&& b.kind == kind_at(s, b.start as int)
    &&& b.end == b.start + b.kind.spec_len()
    &&& b.end <= s.len()
}

/// Finds the first marker that starts at or after `from`. An escape byte
/// whose clear-screen sequence is not complete in `buf` is no marker yet.
pub fn find_next(buf: &[u8], from: usize) -> (r: Option<Boundary>)
    requires
        from <= buf@.len(),
    ensures
        r is None <==> marker_free(buf@, from as int, buf@.len() as int),
        r matches Some(b) ==> is_first_boundary(buf@, from as int, b),
{
    let n = buf.len();
    let mut i: usize = from;
    while i < n
        invariant
            from <= i <= n,
            n == buf@.len(),
            marker_free(buf@, from as int, i as int),
        decreases n - i,
    {
        let b = buf[i];
        if b == LINE_FEED {
            assert(marker_at(buf@, i as int));
            return Some(Boundary { kind: BoundaryKind::NewLine, start: i, end: i + 1 });
        } else if b == CARRIAGE_RETURN {
            assert(marker_at(buf@, i as int));
            return Some(Boundary { kind: BoundaryKind::CarriageReturn, start: i, end: i + 1 });
        } else if b == ESCAPE && n - i >= 4 && buf[i + 1] == CLEAR_SCREEN[1] && buf[i + 2]
            == CLEAR_SCREEN[2] && buf[i + 3] == CLEAR_SCREEN[3] {
            assert(marker_at(buf@, i as int));
            return Some(Boundary { kind: BoundaryKind::ClearScreen, start: i, end: i + 4 });
        }
        i = i + 1;
    }
    None
}

/// Position of the first occurrence of a non-empty `needle` in `haystack`.
pub fn find_subsequence(haystack: &[u8], needle: &[u8]) -> (r: Option<usize>)
    requires
        needle@.len() > 0,
    ensures
        r is None <==> forall|i: int| !#[trigger] occurs_at(haystack@, needle@, i),
        r matches Some(i) ==> occurs_at(haystack@, needle@, i as int) && forall|j: int|
            0 <= j < i ==> !#[trigger] occurs_at(haystack@, needle@, j),
{
    let n = haystack.len();
    let m = needle.len();
    if m > n {
        return None;
    }
    let mut i: usize = 0;
    while i <= n - m
        invariant
            m <= n,
            n == haystack@.len(),
            m == needle@.len(),
            i <= n - m + 1,
            forall|j: int| 0 <= j < i ==> !#[trigger] occurs_at(haystack@, needle@, j),
        decreases n - m + 1 - i,
    {
        let mut k: usize = 0;
        let mut same = true;
        while k < m
            invariant
                k <= m,
                i + m <= n,
                n == haystack@.len(),
                m == needle@.len(),
                same <==> forall|t: int| 0 <= t < k ==> haystack@[i + t] == needle@[t],
            decreases m - k,
        {
            if haystack[i + k] != needle[k] {
                same = false;
            }
            k = k + 1;
        }
        if same {
            assert(haystack@.subrange(i as int, i + m) =~= needle@);
            assert(occurs_at(haystack@, needle@, i as int));
            return Some(i);
        }
        assert(!occurs_at(haystack@, needle@, i as int)) by {
            if occurs_at(haystack@, needle@, i as int) {
                assert forall|t: int| 0 <= t < m implies haystack@[i + t] == needle@[t] by {
                    assert(haystack@.subrange(i as int, i + m)[t] == haystack@[i + t]);
                }
            }
        }
        i = i + 1;
    }
    None
}

} // verus!
