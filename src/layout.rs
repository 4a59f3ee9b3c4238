//! The abstract model of an arena: a list of chunks, each a capacity and the
//! bytes handed out so far, and regions addressed inside them.
use vstd::prelude::*;

use crate::align::{lemma_round_up, round_up_spec};
use crate::pod::Pod;

verus! {

/// What a chunk holds: its fixed capacity and the bytes up to its bump offset.
pub struct ChunkView {
    pub capacity: nat,
    pub bytes: Seq<u8>,
}

/// A run of `size` bytes starting at offset `start` of chunk number `chunk`
/// (chunks are numbered in the order in which they were created).
#[derive(Clone, Copy, Debug, PartialEq, Eq, Structural)]
pub struct Region {
    pub chunk: usize,
    pub start: usize,
    pub size: usize,
}

/// At least one chunk, and each chunk filled no further than its capacity.
pub open spec fn chunks_wf(s: Seq<ChunkView>) -> bool {
    &&& s.len() >= 1
    &&& s.len() <= usize::MAX
    &&& forall|i: int|
        0 <= i < s.len() ==> #[trigger] s[i].bytes.len() <= s[i].capacity && s[i].capacity
            <= usize::MAX
}

/// The region lies within the used part of its chunk.
pub open spec fn in_bounds(s: Seq<ChunkView>, r: Region) -> bool {
    r.chunk < s.len() && r.start + r.size <= s[r.chunk as int].bytes.len()
}

/// The bytes of a region.
pub open spec fn bytes_at(s: Seq<ChunkView>, r: Region) -> Seq<u8> {
    s[r.chunk as int].bytes.subrange(r.start as int, r.start + r.size)
}

/// Two regions share no byte.
pub open spec fn disjoint(a: Region, b: Region) -> bool {
    a.chunk != b.chunk || a.start + a.size <= b.start || b.start + b.size <= a.start
}

/// The region starts beyond everything that was handed out in `s`.
pub open spec fn fresh(s: Seq<ChunkView>, r: Region) -> bool {
    r.chunk >= s.len() || r.start >= s[r.chunk as int].bytes.len()
}

/// `b` grew out of `a`: no chunk was dropped or resized, and every byte that
/// `a` had handed out is still there, unchanged.
pub open spec fn extends(a: Seq<ChunkView>, b: Seq<ChunkView>) -> bool {
    &&& a.len() <= b.len()
    &&& forall|i: int|
        0 <= i < a.len() ==> #[trigger] b[i].capacity == a[i].capacity && a[i].bytes.len()
            <= b[i].bytes.len() && b[i].bytes.subrange(0, a[i].bytes.len() as int) == a[i].bytes
}

/// The sum of the capacities of all chunks.
pub open spec fn total_capacity(s: Seq<ChunkView>) -> nat
    decreases s.len(),
{
    if s.len() == 0 {
        0
    } else {
        total_capacity(s.drop_last()) + s.last().capacity
    }
}

/// `n` zero bytes.
pub open spec fn zeros(n: nat) -> Seq<u8> {
    Seq::new(n, |i: int| 0u8)
}

/// The chunk can take `size` more bytes at the next multiple of `align`.
pub open spec fn fits(c: ChunkView, size: nat, align: nat) -> bool {
    &&& c.bytes.len() + align <= usize::MAX + 1
    &&& round_up_spec(c.bytes.len(), align) + size <= c.capacity
}

/// The capacity of the chunk added when the head (filled to `used`) cannot
/// take a request of `size` bytes: twice the larger of the two, halved first
/// so that the doubling cannot overflow, and never less than the request.
pub open spec fn grown_capacity(used: nat, size: nat) -> nat {
    let m = if used >= size {
        used
    } else {
        size
    };
    let h = if m <= usize::MAX as nat / 2 {
        m
    } else {
        usize::MAX as nat / 2
    };
    if 2 * h >= size {
        2 * h
    } else {
        size
    }
}

/// The arena after `payload` is placed at alignment `align`, and the region
/// it got: in the head chunk where it fits, else at the start of a new chunk.
pub open spec fn place(s: Seq<ChunkView>, payload: Seq<u8>, align: nat) -> (Seq<ChunkView>, Region) {
    let head = s.last();
    if fits(head, payload.len(), align) {
        let start = round_up_spec(head.bytes.len(), align);
        (
            s.update(
                s.len() - 1,
                ChunkView {
                    capacity: head.capacity,
                    bytes: head.bytes + zeros((start - head.bytes.len()) as nat) + payload,
                },
            ),
            Region { chunk: (s.len() - 1) as usize, start: start as usize, size: payload.len() as usize },
        )
    } else {
        (
            s.push(ChunkView { capacity: grown_capacity(head.bytes.len(), payload.len()), bytes: payload }),
            Region { chunk: s.len() as usize, start: 0, size: payload.len() as usize },
        )
    }
}

/// The value stored in a region.
pub open spec fn value_at<T: Pod>(s: Seq<ChunkView>, r: Region) -> T {
    T::decode(bytes_at(s, r))
}

/// The distance between two elements of a slice: each element is padded to
/// its own alignment.
pub open spec fn element_size<T: Pod>() -> nat {
    if T::size() >= T::align() {
        T::size()
    } else {
        T::align()
    }
}

/// The bytes of a slice: each element followed by padding up to the element size.
pub open spec fn slice_bytes<T: Pod>(vals: Seq<T>) -> Seq<u8>
    decreases vals.len(),
{
    if vals.len() == 0 {
        Seq::empty()
    } else {
        slice_bytes(vals.drop_last()) + T::encode(vals.last()) + zeros(
            (element_size::<T>() - T::size()) as nat,
        )
    }
}

/// The `len` elements that a run of bytes holds.
pub open spec fn elements<T: Pod>(b: Seq<u8>, len: nat) -> Seq<T> {
    Seq::new(
        len,
        |i: int| T::decode(b.subrange(i * element_size::<T>(), i * element_size::<T>() + T::size())),
    )
}

/// Placing bytes keeps the arena well formed, keeps what it held, adds to no
/// capacity but a new chunk's, and gives a region that holds exactly the
/// bytes placed, lies within its chunk, starts at a multiple of the
/// alignment and overlaps nothing handed out before.
pub proof fn lemma_place(s: Seq<ChunkView>, payload: Seq<u8>, align: nat)
    requires
        chunks_wf(s),
        align > 0,
        payload.len() <= usize::MAX,
        s.len() < usize::MAX,
    ensures
        ({
            let (t, r) = place(s, payload, align);
            &&& chunks_wf(t)
            &&& extends(s, t)
            &&& in_bounds(t, r)
            &&& fresh(s, r)
            &&& bytes_at(t, r) == payload
            &&& (r.start as nat) % align == 0
            &&& total_capacity(t) >= total_capacity(s)
        }),
{
    let (t, r) = place(s, payload, align);
    let head = s.last();
    lemma_round_up(head.bytes.len(), align);
    if fits(head, payload.len(), align) {
        let start = round_up_spec(head.bytes.len(), align);
        let nb = head.bytes + zeros((start - head.bytes.len()) as nat) + payload;
        assert(nb.subrange(0, head.bytes.len() as int) =~= head.bytes);
        assert(nb.subrange(start as int, (start + payload.len()) as int) =~= payload);
        assert forall|i: int| 0 <= i < s.len() implies #[trigger] t[i].capacity == s[i].capacity
            && s[i].bytes.len() <= t[i].bytes.len() && t[i].bytes.subrange(
            0,
            s[i].bytes.len() as int,
        ) == s[i].bytes by {
            if i != s.len() - 1 {
                assert(t[i].bytes.subrange(0, s[i].bytes.len() as int) =~= s[i].bytes);
            }
        }
        assert(t.drop_last() =~= s.drop_last());
    } else {
        assert(payload.subrange(0, payload.len() as int) =~= payload);
        assert forall|i: int| 0 <= i < s.len() implies #[trigger] t[i].capacity == s[i].capacity
            && s[i].bytes.len() <= t[i].bytes.len() && t[i].bytes.subrange(
            0,
            s[i].bytes.len() as int,
        ) == s[i].bytes by {
            assert(t[i].bytes.subrange(0, s[i].bytes.len() as int) =~= s[i].bytes);
        }
        assert(t.drop_last() =~= s);
    }
}

/// The bytes of a slice are one element size per element, and reading them
/// back element by element gives the slice.
pub proof fn lemma_slice_bytes<T: Pod>(vals: Seq<T>)
    ensures
        slice_bytes(vals).len() == vals.len() * element_size::<T>(),
        elements::<T>(slice_bytes(vals), vals.len()) == vals,
    decreases vals.len(),
{
    let es = element_size::<T>();
    let size = T::size();
    let n = vals.len();
    let sb = slice_bytes(vals);
    if n > 0 {
        let p = vals.drop_last();
        lemma_slice_bytes(p);
        T::lemma_round_trip(vals.last());
        let pb = slice_bytes(p);
        assert(sb.len() == n * es) by (nonlinear_arith)
            requires
                sb.len() == pb.len() + size + (es - size),
                pb.len() == (n - 1) * es,
                es >= size,
                n >= 1,
        ;
        assert forall|i: int| 0 <= i < n implies #[trigger] elements::<T>(sb, n)[i] == vals[i] by {
            if i < n - 1 {
                assert(i * es + size <= (n - 1) * es) by (nonlinear_arith)
                    requires
                        0 <= i,
                        i + 1 <= n - 1,
                        es >= size,
                ;
                assert(0 <= i * es) by (nonlinear_arith)
                    requires
                        0 <= i,
                ;
                assert(sb.subrange(i * es, i * es + size) =~= pb.subrange(i * es, i * es + size));
                assert(elements::<T>(pb, (n - 1) as nat)[i] == p[i]);
            } else {
                assert(sb.subrange(i * es, i * es + size) =~= T::encode(vals.last()));
            }
        }
        assert(elements::<T>(sb, n) =~= vals);
    } else {
        assert(elements::<T>(sb, n) =~= vals);
    }
}

/// The capacities of a prefix add up to at most the whole.
pub proof fn lemma_total_capacity_prefix(s: Seq<ChunkView>, n: nat)
    requires
        n <= s.len(),
    ensures
        total_capacity(s.subrange(0, n as int)) <= total_capacity(s),
    decreases s.len(),
{
    if n < s.len() {
        assert(s.drop_last().subrange(0, n as int) =~= s.subrange(0, n as int));
        lemma_total_capacity_prefix(s.drop_last(), n);
    } else {
        assert(s.subrange(0, n as int) =~= s);
    }
}

proof fn lemma_total_capacity_same(a: Seq<ChunkView>, b: Seq<ChunkView>)
    requires
        a.len() == b.len(),
        forall|i: int| 0 <= i < a.len() ==> #[trigger] a[i].capacity == b[i].capacity,
    ensures
        total_capacity(a) == total_capacity(b),
    decreases a.len(),
{
    if a.len() > 0 {
        lemma_total_capacity_same(a.drop_last(), b.drop_last());
    }
}

/// Growth never shrinks the total capacity: an arena that grew out of
/// another has at least its capacity.
pub proof fn lemma_capacity_monotonic(a: Seq<ChunkView>, b: Seq<ChunkView>)
    requires
        extends(a, b),
    ensures
        total_capacity(a) <= total_capacity(b),
{
    let p = b.subrange(0, a.len() as int);
    assert forall|i: int| 0 <= i < a.len() implies #[trigger] a[i].capacity == p[i].capacity by {
        assert(b[i].capacity == a[i].capacity);
    }
    lemma_total_capacity_same(a, p);
    lemma_total_capacity_prefix(b, a.len());
}

/// Growing is transitive.
pub proof fn lemma_extends_trans(a: Seq<ChunkView>, b: Seq<ChunkView>, c: Seq<ChunkView>)
    requires
        extends(a, b),
        extends(b, c),
    ensures
        extends(a, c),
{
    assert forall|i: int| 0 <= i < a.len() implies #[trigger] c[i].capacity == a[i].capacity
        && a[i].bytes.len() <= c[i].bytes.len() && c[i].bytes.subrange(0, a[i].bytes.len() as int)
        == a[i].bytes by {
        assert(b[i].capacity == a[i].capacity);
        assert(c[i].capacity == b[i].capacity);
        assert(c[i].bytes.subrange(0, a[i].bytes.len() as int) =~= c[i].bytes.subrange(
            0,
            b[i].bytes.len() as int,
        ).subrange(0, a[i].bytes.len() as int));
    }
}

/// A region handed out earlier stays within its chunk and keeps its bytes,
/// and so its value, however the arena grows afterwards.
pub proof fn lemma_region_kept(a: Seq<ChunkView>, b: Seq<ChunkView>, r: Region)
    requires
        extends(a, b),
        in_bounds(a, r),
    ensures
        in_bounds(b, r),
        bytes_at(b, r) == bytes_at(a, r),
{
    let c = r.chunk as int;
    assert(b[c].capacity == a[c].capacity);
    assert(bytes_at(b, r) =~= b[c].bytes.subrange(0, a[c].bytes.len() as int).subrange(
        r.start as int,
        r.start + r.size,
    ));
}

/// A region handed out after another shares no byte with it: the earlier
/// one lies within what the arena had handed out, and the later one is fresh.
pub proof fn lemma_regions_disjoint(s: Seq<ChunkView>, earlier: Region, later: Region)
    requires
        in_bounds(s, earlier),
        fresh(s, later),
    ensures
        disjoint(earlier, later),
{
}

} // verus!
