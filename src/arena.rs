//! The arena, its chunks, and the allocator handle that fills them.
use vstd::prelude::*;

use crate::align::{is_power_of_two, round_up, round_up_spec};
use crate::layout::{
    bytes_at, chunks_wf, element_size, elements, extends, fits, fresh, grown_capacity, in_bounds,
    lemma_place, lemma_slice_bytes, lemma_total_capacity_prefix, place, slice_bytes, total_capacity, value_at, zeros,
    ChunkView, Region,
};
use crate::pod::Pod;

verus! {

/// One fixed-capacity buffer; `data` holds the bytes up to the bump offset.
struct Chunk {
    data: Vec<u8>,
    capacity: usize,
}

impl Chunk {
    closed spec fn view(&self) -> ChunkView {
        ChunkView { capacity: self.capacity as nat, bytes: self.data@ }
    }

    fn new(capacity: usize) -> (r: Chunk)
        ensures
            r.view() == (ChunkView { capacity: capacity as nat, bytes: Seq::empty() }),
    {
        Chunk { data: Vec::with_capacity(capacity), capacity }
    }

    /// Places `payload` at the next multiple of `align` if it fits, and
    /// returns where it starts; otherwise changes nothing.
    fn attempt_alloc(&mut self, payload: &Vec<u8>, align: usize) -> (r: Option<usize>)
        requires
            old(self).data@.len() <= old(self).capacity,
            is_power_of_two(align),
        ensures
            fits(old(self).view(), payload@.len(), align as nat) ==> r == Some(
                round_up_spec(old(self).data@.len(), align as nat) as usize,
            ) && final(self).view() == (ChunkView {
                capacity: old(self).capacity as nat,
                bytes: old(self).data@ + zeros(
                    (round_up_spec(old(self).data@.len(), align as nat) - old(self).data@.len()) as nat,
                ) + payload@,
            }),
            !fits(old(self).view(), payload@.len(), align as nat) ==> r == None::<usize>
                && final(self).view() == old(self).view(),
    {
        let len = self.data.len();
        if len > usize::MAX - align + 1 {
            return None;
        }
        let start = round_up(len, align);
        if payload.len() > self.capacity || start > self.capacity - payload.len() {
            return None;
        }
        let ghost before = self.data@;
        while self.data.len() < start
            invariant
                self.capacity == old(self).capacity,
                before == old(self).data@,
                len == before.len(),
                len <= self.data@.len() <= start,
                self.data@ == before + zeros((self.data@.len() - len) as nat),
            decreases start - self.data@.len(),
        {
            self.data.push(0u8);
            assert(self.data@ =~= before + zeros((self.data@.len() - len) as nat));
        }
        let ghost padded = self.data@;
        assert(padded =~= before + zeros((start - len) as nat));
        let mut i: usize = 0;
        while i < payload.len()
            invariant
                self.capacity == old(self).capacity,
                padded == before + zeros((start - len) as nat),
                start == round_up_spec(len as nat, align as nat),
                i <= payload@.len(),
                self.data@ == padded + payload@.subrange(0, i as int),
            decreases payload@.len() - i,
        {
            self.data.push(payload[i]);
            i = i + 1;
            assert(self.data@ =~= padded + payload@.subrange(0, i as int));
        }
        assert(payload@.subrange(0, i as int) =~= payload@);
        Some(start)
    }
}

/// A bump arena: a list of chunks in creation order, the last one the head.
/// Only the head takes new allocations; earlier chunks are sealed.
pub struct Arena {
    chunks: Vec<Chunk>,
}

impl View for Arena {
    type V = Seq<ChunkView>;

    closed spec fn view(&self) -> Seq<ChunkView> {
        self.chunks@.map_values(|c: Chunk| c.view())
    }
}

/// The initial capacity of `Arena::new`.
pub const DEFAULT_CAPACITY: usize = 1000;

impl Arena {
    /// Well formed: see `chunks_wf`.
    pub open spec fn wf(&self) -> bool {
        chunks_wf(self@)
    }

    /// An arena with one empty chunk of the default capacity.
    pub fn new() -> (r: Arena)
        ensures
            r.wf(),
            r@ == seq![ChunkView { capacity: DEFAULT_CAPACITY as nat, bytes: Seq::empty() }],
    {
        Arena::with_capacity(DEFAULT_CAPACITY)
    }

    /// An arena with one empty chunk of `capacity` bytes.
    pub fn with_capacity(capacity: usize) -> (r: Arena)
        ensures
            r.wf(),
            r@ == seq![ChunkView { capacity: capacity as nat, bytes: Seq::empty() }],
    {
        let mut chunks: Vec<Chunk> = Vec::new();
        chunks.push(Chunk::new(capacity));
        let r = Arena { chunks };
        assert(r@ =~= seq![ChunkView { capacity: capacity as nat, bytes: Seq::empty() }]);
        r
    }

    /// Seals the head and makes a new, empty chunk of `chunk_size` bytes the head.
    fn add_chunk(&mut self, chunk_size: usize)
        requires
            old(self).wf(),
            old(self)@.len() < usize::MAX,
        ensures
            final(self).wf(),
            final(self)@ == old(self)@.push(
                ChunkView { capacity: chunk_size as nat, bytes: Seq::empty() },
            ),
    {
        self.chunks.push(Chunk::new(chunk_size));
        assert(self@ =~= old(self)@.push(
            ChunkView { capacity: chunk_size as nat, bytes: Seq::empty() },
        ));
    }

    /// Asks the head chunk to place `payload`; see `Chunk::attempt_alloc`.
    fn attempt_head(&mut self, payload: &Vec<u8>, align: usize) -> (r: Option<usize>)
        requires
            old(self).wf(),
            is_power_of_two(align),
        ensures
            final(self).wf(),
            fits(old(self)@.last(), payload@.len(), align as nat) ==> r == Some(
                place(old(self)@, payload@, align as nat).1.start,
            ) && final(self)@ == place(old(self)@, payload@, align as nat).0,
            !fits(old(self)@.last(), payload@.len(), align as nat) ==> r == None::<usize>
                && final(self)@ == old(self)@,
    {
        let ghost s = self@;
        let mut head = self.chunks.pop().unwrap();
        assert(self@ =~= s.drop_last());
        assert(head.view() == s.last());
        assert(s[s.len() - 1].bytes.len() <= s[s.len() - 1].capacity);
        let r = head.attempt_alloc(payload, align);
        self.chunks.push(head);
        proof {
            if fits(s.last(), payload@.len(), align as nat) {
                assert(self@ =~= place(s, payload@, align as nat).0);
            } else {
                assert(self@ =~= s);
            }
        }
        r
    }

    /// The total capacity in bytes of all chunks ever created.
    pub fn capacity(&self) -> (r: usize)
        requires
            self.wf(),
            total_capacity(self@) <= usize::MAX,
        ensures
            r == total_capacity(self@),
    {
        let mut total: usize = 0;
        let mut i: usize = 0;
        while i < self.chunks.len()
            invariant
                self.wf(),
                total_capacity(self@) <= usize::MAX,
                i <= self@.len(),
                total == total_capacity(self@.subrange(0, i as int)),
            decreases self@.len() - i,
        {
            proof {
                lemma_total_capacity_prefix(self@, (i + 1) as nat);
                assert(self@.subrange(0, i + 1).drop_last() =~= self@.subrange(0, i as int));
            }
            total = total + self.chunks[i].capacity;
            i = i + 1;
        }
        assert(self@.subrange(0, i as int) =~= self@);
        total
    }

    /// Reads the value stored in a region.
    pub fn get<T: Pod>(&self, r: Region) -> (v: T)
        requires
            self.wf(),
            in_bounds(self@, r),
            r.size == T::size(),
        ensures
            v == value_at::<T>(self@, r),
    {
        let data = self.chunks[r.chunk].data.as_slice();
        let v = T::read_bytes(data, r.start);
        assert(data@.subrange(r.start as int, r.start + T::size()) =~= bytes_at(self@, r));
        v
    }
}

impl Arena {
    /// Reads the `len` elements of a slice stored in a region.
    pub fn get_slice<T: Pod>(&self, r: Region, len: usize) -> (v: Vec<T>)
        requires
            self.wf(),
            in_bounds(self@, r),
            r.size == len * element_size::<T>(),
        ensures
            v@ == elements::<T>(bytes_at(self@, r), len as nat),
    {
        let es = element_size_of::<T>();
        let size = T::size_of();
        let data = self.chunks[r.chunk].data.as_slice();
        let ghost b = bytes_at(self@, r);
        let mut v: Vec<T> = Vec::new();
        let mut i: usize = 0;
        while i < len
            invariant
                self.wf(),
                in_bounds(self@, r),
                data@ == self@[r.chunk as int].bytes,
                b == bytes_at(self@, r),
                r.size == len * es,
                es == element_size::<T>(),
                size == T::size(),
                i <= len,
                v@ == elements::<T>(b, len as nat).subrange(0, i as int),
            decreases len - i,
        {
            assert(i * es + size <= len * es) by (nonlinear_arith)
                requires
                    i < len,
                    size <= es,
            ;
            let at = r.start + i * es;
            let x = T::read_bytes(data, at);
            assert(data@.subrange(at as int, at + size) =~= b.subrange(i * es, i * es + size));
            v.push(x);
            i = i + 1;
            assert(v@ =~= elements::<T>(b, len as nat).subrange(0, i as int));
        }
        assert(v@ =~= elements::<T>(b, len as nat));
        v
    }
}

/// The decimal digits of `n`, most significant first.
pub open spec fn decimal(n: nat) -> Seq<char>
    decreases n,
{
    let digits = seq!['0', '1', '2', '3', '4', '5', '6', '7', '8', '9'];
    if n < 10 {
        seq![digits[n as int]]
    } else {
        decimal(n / 10).push(digits[(n % 10) as int])
    }
}

/// The diagnostic text of an arena whose chunks hold `capacity` bytes in all.
pub open spec fn capacity_text(capacity: nat) -> Seq<char> {
    "Arena { capacity_bytes: "@ + decimal(capacity) + " }"@
}

/// Relies on `format!` with `usize`'s `Display`, which writes the number in
/// decimal digits.
#[verifier::external_body]
fn format_capacity(n: usize) -> (r: String)
    ensures
        r@ == capacity_text(n as nat),
{
    format!("Arena {{ capacity_bytes: {} }}", n)
}

impl Arena {
    /// A diagnostic text that gives the total capacity and nothing else.
    pub fn describe_capacity(&self) -> (r: String)
        requires
            self.wf(),
            total_capacity(self@) <= usize::MAX,
        ensures
            r@ == capacity_text(total_capacity(self@)),
    {
        format_capacity(self.capacity())
    }
}

/// The element size of `T` as a machine word.
fn element_size_of<T: Pod>() -> (r: usize)
    ensures
        r == element_size::<T>(),
{
    let size = T::size_of();
    let align = T::align_of();
    if size >= align {
        size
    } else {
        align
    }
}

/// The number of bytes that a slice of `len` elements takes, or `None`
/// where that number does not fit in a machine word.
pub fn slice_byte_count<T: Pod>(len: usize) -> (r: Option<usize>)
    ensures
        r == (if len * element_size::<T>() <= usize::MAX {
            Some((len * element_size::<T>()) as usize)
        } else {
            None::<usize>
        }),
{
    let es = element_size_of::<T>();
    es.checked_mul(len)
}

/// The bytes of a slice, laid out as `slice_bytes` says.
fn slice_payload<T: Pod>(vals: &[T]) -> (b: Vec<u8>)
    ensures
        b@ == slice_bytes(vals@),
{
    let es = element_size_of::<T>();
    let size = T::size_of();
    let mut b: Vec<u8> = Vec::new();
    let mut i: usize = 0;
    while i < vals.len()
        invariant
            es == element_size::<T>(),
            size == T::size(),
            i <= vals@.len(),
            b@ == slice_bytes(vals@.subrange(0, i as int)),
        decreases vals@.len() - i,
    {
        let ghost prev = b@;
        vals[i].push_bytes(&mut b);
        let mut k: usize = size;
        while k < es
            invariant
                size <= k <= es,
                b@ == prev + T::encode(vals@[i as int]) + zeros((k - size) as nat),
            decreases es - k,
        {
            b.push(0u8);
            k = k + 1;
            assert(b@ =~= prev + T::encode(vals@[i as int]) + zeros((k - size) as nat));
        }
        assert(vals@.subrange(0, i + 1).drop_last() =~= vals@.subrange(0, i as int));
        i = i + 1;
        assert(b@ =~= slice_bytes(vals@.subrange(0, i as int)));
    }
    assert(vals@.subrange(0, i as int) =~= vals@);
    b
}

/// Exclusive access to an arena, through which values are allocated.
pub struct Allocator<'a> {
    pub arena: &'a mut Arena,
}

impl Arena {
    /// The allocator that fills this arena.
    pub fn allocator(&mut self) -> (r: Allocator<'_>)
        ensures
            r.arena() == *old(self),
            *final(self) == *final(r.arena),
    {
        Allocator { arena: self }
    }
}

impl<'a> Allocator<'a> {
    /// The arena as it stands.
    pub open spec fn arena(&self) -> Arena {
        *self.arena
    }

    /// Places `payload` at alignment `align`, adding a chunk when the head
    /// cannot take it.
    fn alloc_raw(&mut self, payload: &Vec<u8>, align: usize) -> (r: Region)
        requires
            old(self).arena().wf(),
            old(self).arena()@.len() < usize::MAX,
            is_power_of_two(align),
        ensures
            final(self).arena().wf(),
            *final(final(self).arena) == *final(old(self).arena),
            (final(self).arena()@, r) == place(old(self).arena()@, payload@, align as nat),
    {
        let ghost s = self.arena@;
        let mut grown = false;
        loop
            invariant
                self.arena.wf(),
                *final(self.arena) == *final(old(self).arena),
                !grown ==> self.arena@ == s,
                grown ==> !fits(s.last(), payload@.len(), align as nat),
                grown ==> self.arena@ == s.push(
                    ChunkView {
                        capacity: grown_capacity(s.last().bytes.len(), payload@.len()),
                        bytes: Seq::empty(),
                    },
                ),
                s == old(self).arena()@,
                s.len() < usize::MAX,
                chunks_wf(s),
                is_power_of_two(align),
            decreases (if grown { 0int } else { 1int }),
        {
            let ghost before = self.arena@;
            match self.arena.attempt_head(payload, align) {
                Some(start) => {
                    let r = Region { chunk: self.arena.chunks.len() - 1, start, size: payload.len() };
                    proof {
                        assert(self.arena@.len() == self.arena.chunks@.len());
                        if grown {
                            vstd::arithmetic::div_mod::lemma_small_mod(0, align as nat);
                            assert(round_up_spec(0, align as nat) == 0);
                            assert(fits(before.last(), payload@.len(), align as nat));
                            assert(!fits(s.last(), payload@.len(), align as nat));
                            assert(r == place(s, payload@, align as nat).1);
                            assert(Seq::<u8>::empty() + zeros(0) + payload@ =~= payload@);
                            assert(self.arena@ =~= s.push(
                                ChunkView {
                                    capacity: grown_capacity(s.last().bytes.len(), payload@.len()),
                                    bytes: payload@,
                                },
                            ));
                        }
                        assert((self.arena@, r) == place(s, payload@, align as nat));
                    }
                    return r;
                },
                None => {
                    let used = self.arena.chunks[self.arena.chunks.len() - 1].data.len();
                    let size = payload.len();
                    let m = if used >= size { used } else { size };
                    let h = if m <= usize::MAX / 2 { m } else { usize::MAX / 2 };
                    let new_chunk_size = if 2 * h >= size { 2 * h } else { size };
                    proof {
                        if grown {
                            vstd::arithmetic::div_mod::lemma_small_mod(0, align as nat);
                            assert(round_up_spec(0, align as nat) == 0);
                            assert(fits(before.last(), payload@.len(), align as nat));
                        }
                    }
                    self.arena.add_chunk(new_chunk_size);
                    grown = true;
                },
            }
        }
    }

    /// Stores `elem` at its natural alignment and returns its region.
    pub fn alloc_value<T: Pod>(&mut self, elem: T) -> (r: Region)
        requires
            old(self).arena().wf(),
            old(self).arena()@.len() < usize::MAX,
        ensures
            final(self).arena().wf(),
            *final(final(self).arena) == *final(old(self).arena),
            (final(self).arena()@, r) == place(old(self).arena()@, T::encode(elem), T::align()),
            value_at::<T>(final(self).arena()@, r) == elem,
            r.size == T::size(),
            in_bounds(final(self).arena()@, r),
            fresh(old(self).arena()@, r),
            extends(old(self).arena()@, final(self).arena()@),
            total_capacity(final(self).arena()@) >= total_capacity(old(self).arena()@),
    {
        let mut payload: Vec<u8> = Vec::new();
        elem.push_bytes(&mut payload);
        let align = T::align_of();
        proof {
            assert(payload@ =~= T::encode(elem));
            assert(payload@.len() == payload.len());
            lemma_place(self.arena@, payload@, T::align());
            T::lemma_round_trip(elem);
        }
        self.alloc_raw(&payload, align)
    }

    /// Stores the default value of `T` and returns its region.
    pub fn alloc_default<T: Pod + Default>(&mut self) -> (r: Region)
        requires
            old(self).arena().wf(),
            old(self).arena()@.len() < usize::MAX,
        ensures
            final(self).arena().wf(),
            *final(final(self).arena) == *final(old(self).arena),
            call_ensures(T::default, (), value_at::<T>(final(self).arena()@, r)),
            (final(self).arena()@, r) == place(
                old(self).arena()@,
                T::encode(value_at::<T>(final(self).arena()@, r)),
                T::align(),
            ),
            r.size == T::size(),
            in_bounds(final(self).arena()@, r),
            fresh(old(self).arena()@, r),
            extends(old(self).arena()@, final(self).arena()@),
    {
        let v = T::default();
        self.alloc_value(v)
    }

    /// Stores a copy of `elems` and returns the region of the slice.
    pub fn alloc_slice<T: Pod>(&mut self, elems: &[T]) -> (r: Region)
        requires
            old(self).arena().wf(),
            old(self).arena()@.len() < usize::MAX,
            elems@.len() * element_size::<T>() <= usize::MAX,
        ensures
            final(self).arena().wf(),
            *final(final(self).arena) == *final(old(self).arena),
            (final(self).arena()@, r) == place(old(self).arena()@, slice_bytes(elems@), T::align()),
            elements::<T>(bytes_at(final(self).arena()@, r), elems@.len()) == elems@,
            r.size == elems@.len() * element_size::<T>(),
            in_bounds(final(self).arena()@, r),
            fresh(old(self).arena()@, r),
            extends(old(self).arena()@, final(self).arena()@),
            total_capacity(final(self).arena()@) >= total_capacity(old(self).arena()@),
    {
        let payload = slice_payload(elems);
        let align = T::align_of();
        proof {
            lemma_slice_bytes(elems@);
            assert(payload@.len() == payload.len());
            lemma_place(self.arena@, payload@, T::align());
        }
        self.alloc_raw(&payload, align)
    }

    /// Stores the slice `f(0), f(1), ..., f(len - 1)`, calling `f` in that
    /// order, and returns its region.
    pub fn alloc_slice_fn<T: Pod, F: FnMut(usize) -> T>(&mut self, len: usize, mut f: F) -> (r: Region)
        requires
            old(self).arena().wf(),
            old(self).arena()@.len() < usize::MAX,
            len * element_size::<T>() <= usize::MAX,
            forall|i: usize| i < len ==> f.requires((i,)),
        ensures
            final(self).arena().wf(),
            *final(final(self).arena) == *final(old(self).arena),
            forall|i: int|
                0 <= i < len ==> f.ensures(
                    (i as usize,),
                    #[trigger] elements::<T>(bytes_at(final(self).arena()@, r), len as nat)[i],
                ),
            (final(self).arena()@, r) == place(
                old(self).arena()@,
                slice_bytes(elements::<T>(bytes_at(final(self).arena()@, r), len as nat)),
                T::align(),
            ),
            r.size == len * element_size::<T>(),
            in_bounds(final(self).arena()@, r),
            fresh(old(self).arena()@, r),
            extends(old(self).arena()@, final(self).arena()@),
    {
        let ghost f0 = f;
        let mut vals: Vec<T> = Vec::new();
        let mut i: usize = 0;
        while i < len
            invariant
                f == f0,
                i <= len,
                vals@.len() == i,
                forall|i: usize| i < len ==> f.requires((i,)),
                forall|j: int| 0 <= j < i ==> f.ensures((j as usize,), #[trigger] vals@[j]),
            decreases len - i,
        {
            let x = f(i);
            vals.push(x);
            i = i + 1;
        }
        self.alloc_slice(vals.as_slice())
    }

    /// Stores `len` default values of `T` and returns the region of the slice.
    pub fn alloc_slice_default<T: Pod + Default>(&mut self, len: usize) -> (r: Region)
        requires
            old(self).arena().wf(),
            old(self).arena()@.len() < usize::MAX,
            len * element_size::<T>() <= usize::MAX,
        ensures
            final(self).arena().wf(),
            *final(final(self).arena) == *final(old(self).arena),
            forall|i: int|
                0 <= i < len ==> call_ensures(
                    T::default,
                    (),
                    #[trigger] elements::<T>(bytes_at(final(self).arena()@, r), len as nat)[i],
                ),
            (final(self).arena()@, r) == place(
                old(self).arena()@,
                slice_bytes(elements::<T>(bytes_at(final(self).arena()@, r), len as nat)),
                T::align(),
            ),
            r.size == len * element_size::<T>(),
            in_bounds(final(self).arena()@, r),
            fresh(old(self).arena()@, r),
            extends(old(self).arena()@, final(self).arena()@),
    {
        let mut vals: Vec<T> = Vec::new();
        let mut i: usize = 0;
        while i < len
            invariant
                i <= len,
                vals@.len() == i,
                forall|j: int| 0 <= j < i ==> call_ensures(T::default, (), #[trigger] vals@[j]),
            decreases len - i,
        {
            let x = T::default();
            vals.push(x);
            i = i + 1;
        }
        self.alloc_slice(vals.as_slice())
    }

    /// Reads the value stored in a region.
    pub fn get<T: Pod>(&self, r: Region) -> (v: T)
        requires
            self.arena().wf(),
            in_bounds(self.arena()@, r),
            r.size == T::size(),
        ensures
            v == value_at::<T>(self.arena()@, r),
    {
        self.arena.get(r)
    }

    /// Reads the `len` elements of a slice stored in a region.
    pub fn get_slice<T: Pod>(&self, r: Region, len: usize) -> (v: Vec<T>)
        requires
            self.arena().wf(),
            in_bounds(self.arena()@, r),
            r.size == len * element_size::<T>(),
        ensures
            v@ == elements::<T>(bytes_at(self.arena()@, r), len as nat),
    {
        self.arena.get_slice(r, len)
    }
}

} // verus!
