use vstd::layout::size_of;
use vstd::prelude::*;

verus! {

broadcast use vstd::layout::layout_of_primitives, vstd::layout::layout_of_unit_tuple;

/// One cell of storage: either never written, or holding one byte.
#[derive(Clone, Copy, Debug, PartialEq, Eq, Structural)]
pub enum MaybeByte {
    Uninit,
    Init(u8),
}

/// Whether the first cells of `cells` hold the bytes `b`, in order.
pub open spec fn holds_bytes(cells: Seq<MaybeByte>, b: Seq<u8>) -> bool {
    &&& b.len() <= cells.len()
    &&& forall|i: int| 0 <= i < b.len() ==> cells[i] == MaybeByte::Init(b[i])
}

/// `cells` with its first cells overwritten by the bytes `b`; the other cells keep what
/// they held.
pub open spec fn written(cells: Seq<MaybeByte>, b: Seq<u8>) -> Seq<MaybeByte> {
    Seq::new(
        cells.len(),
        |i: int|
            if i < b.len() {
                MaybeByte::Init(b[i])
            } else {
                cells[i]
            },
    )
}

/// Types whose values can be moved into storage as bytes and moved back out.
///
/// A value is moved, not copied: `write_cells` consumes it, and only `read_cells` brings a
/// value of the type back into existence.
pub trait Erasable: Sized {
    /// The bytes that stand for `v` in storage.
    spec fn spec_bytes(v: Self) -> Seq<u8>;

    /// A value takes exactly as many bytes as its type's size.
    proof fn lemma_bytes_len(v: Self)
        ensures
            Self::spec_bytes(v).len() == size_of::<Self>(),
    ;

    /// Distinct values have distinct bytes.
    proof fn lemma_bytes_injective(a: Self, b: Self)
        requires
            Self::spec_bytes(a) == Self::spec_bytes(b),
        ensures
            a == b,
    ;

    /// Moves `self` into the first cells of `cells`.
    fn write_cells(self, cells: &mut [MaybeByte])
        requires
            Self::spec_bytes(self).len() <= old(cells)@.len(),
        ensures
            final(cells)@ == written(old(cells)@, Self::spec_bytes(self)),
    ;

    /// Moves a value out of the first cells of `cells`, which must hold the bytes of one.
    fn read_cells(cells: &[MaybeByte]) -> (r: Self)
        requires
            exists|v: Self| holds_bytes(cells@, #[trigger] Self::spec_bytes(v)),
        ensures
            holds_bytes(cells@, Self::spec_bytes(r)),
    ;
}

/// Writes the bytes `b` over the first cells of `cells`.
fn write_bytes(cells: &mut [MaybeByte], b: &[u8])
    requires
        b@.len() <= old(cells)@.len(),
    ensures
        final(cells)@ == written(old(cells)@, b@),
{
    let ghost start = cells@;
    let mut i: usize = 0;
    while i < b.len()
        invariant
            i <= b@.len() <= start.len(),
            cells@.len() == start.len(),
            forall|j: int| 0 <= j < i ==> cells@[j] == MaybeByte::Init(b@[j]),
            forall|j: int| i <= j < start.len() ==> cells@[j] == start[j],
        decreases b@.len() - i,
    {
        cells[i] = MaybeByte::Init(b[i]);
        i = i + 1;
    }
    assert(cells@ =~= written(start, b@));
}

/// The byte in cell `i`, which must have been written.
fn byte_at(cells: &[MaybeByte], i: usize) -> (r: u8)
    requires
        i < cells@.len(),
        cells@[i as int] is Init,
    ensures
        cells@[i as int] == MaybeByte::Init(r),
{
    match cells[i] {
        MaybeByte::Init(b) => b,
        MaybeByte::Uninit => 0,
    }
}

impl Erasable for () {
    open spec fn spec_bytes(v: ()) -> Seq<u8> {
        Seq::empty()
    }

    proof fn lemma_bytes_len(v: ()) {
    }

    proof fn lemma_bytes_injective(a: (), b: ()) {
    }

    fn write_cells(self, cells: &mut [MaybeByte]) {
        assert(cells@ =~= written(cells@, Self::spec_bytes(self)));
    }

    fn read_cells(cells: &[MaybeByte]) -> (r: ()) {
    }
}

impl Erasable for u8 {
    open spec fn spec_bytes(v: u8) -> Seq<u8> {
        seq![v]
    }

    proof fn lemma_bytes_len(v: u8) {
    }

    proof fn lemma_bytes_injective(a: u8, b: u8) {
        assert(Self::spec_bytes(a)[0] == a);
    }

    fn write_cells(self, cells: &mut [MaybeByte]) {
        write_bytes(cells, &[self]);
    }

    fn read_cells(cells: &[MaybeByte]) -> (r: u8) {
        let r = byte_at(cells, 0);
        assert(Self::spec_bytes(r) =~= seq![r]);
        r
    }
}

impl Erasable for bool {
    open spec fn spec_bytes(v: bool) -> Seq<u8> {
        seq![if v { 1u8 } else { 0u8 }]
    }

    proof fn lemma_bytes_len(v: bool) {
    }

    proof fn lemma_bytes_injective(a: bool, b: bool) {
        assert(Self::spec_bytes(a)[0] == if a { 1u8 } else { 0u8 });
        assert(Self::spec_bytes(b)[0] == if b { 1u8 } else { 0u8 });
    }

    fn write_cells(self, cells: &mut [MaybeByte]) {
        let b: u8 = if self { 1 } else { 0 };
        write_bytes(cells, &[b]);
    }

    fn read_cells(cells: &[MaybeByte]) -> (r: bool) {
        let b = byte_at(cells, 0);
        let r = b == 1;
        proof {
            let v = choose|v: bool| holds_bytes(cells@, #[trigger] Self::spec_bytes(v));
            assert(cells@[0] == MaybeByte::Init(Self::spec_bytes(v)[0]));
        }
        r
    }
}

/// The u16 whose little-endian bytes are the first 2 of `b`.
pub open spec fn u16_of_bytes(b: Seq<u8>) -> u16 {
    (b[0] as u16)
        | (b[1] as u16) << 8
}

proof fn lemma_u16_bytes_round_trip(v: u16)
    ensures
        u16_of_bytes(<u16 as Erasable>::spec_bytes(v)) == v,
{
    assert(v == (((v & 0xff) as u8) as u16)
            | ((((v >> 8) & 0xff) as u8) as u16) << 8) by (bit_vector);
}

impl Erasable for u16 {
    /// Little-endian order.
    open spec fn spec_bytes(v: u16) -> Seq<u8> {
        seq![
            (v & 0xff) as u8,
            ((v >> 8) & 0xff) as u8,
        ]
    }

    proof fn lemma_bytes_len(v: u16) {
    }

    proof fn lemma_bytes_injective(a: u16, b: u16) {
        lemma_u16_bytes_round_trip(a);
        lemma_u16_bytes_round_trip(b);
    }

    fn write_cells(self, cells: &mut [MaybeByte]) {
        let b = [
            (self & 0xff) as u8,
            ((self >> 8) & 0xff) as u8,
        ];
        assert(b@ =~= Self::spec_bytes(self));
        write_bytes(cells, &b);
    }

    fn read_cells(cells: &[MaybeByte]) -> (r: u16) {
        let ghost v = choose|v: u16| holds_bytes(cells@, #[trigger] Self::spec_bytes(v));
        proof {
            assert(cells@[0] == MaybeByte::Init(Self::spec_bytes(v)[0]));
            assert(cells@[1] == MaybeByte::Init(Self::spec_bytes(v)[1]));
        }
        let b0 = byte_at(cells, 0);
        let b1 = byte_at(cells, 1);
        let r = (b0 as u16)
            | (b1 as u16) << 8;
        proof {
            lemma_u16_bytes_round_trip(v);
        }
        r
    }
}

/// The u32 whose little-endian bytes are the first 4 of `b`.
pub open spec fn u32_of_bytes(b: Seq<u8>) -> u32 {
    (b[0] as u32)
        | (b[1] as u32) << 8
        | (b[2] as u32) << 16
        | (b[3] as u32) << 24
}

proof fn lemma_u32_bytes_round_trip(v: u32)
    ensures
        u32_of_bytes(<u32 as Erasable>::spec_bytes(v)) == v,
{
    assert(v == (((v & 0xff) as u8) as u32)
            | ((((v >> 8) & 0xff) as u8) as u32) << 8
            | ((((v >> 16) & 0xff) as u8) as u32) << 16
            | ((((v >> 24) & 0xff) as u8) as u32) << 24) by (bit_vector);
}

impl Erasable for u32 {
    /// Little-endian order.
    open spec fn spec_bytes(v: u32) -> Seq<u8> {
        seq![
            (v & 0xff) as u8,
            ((v >> 8) & 0xff) as u8,
            ((v >> 16) & 0xff) as u8,
            ((v >> 24) & 0xff) as u8,
        ]
    }

    proof fn lemma_bytes_len(v: u32) {
    }

    proof fn lemma_bytes_injective(a: u32, b: u32) {
        lemma_u32_bytes_round_trip(a);
        lemma_u32_bytes_round_trip(b);
    }

    fn write_cells(self, cells: &mut [MaybeByte]) {
        let b = [
            (self & 0xff) as u8,
            ((self >> 8) & 0xff) as u8,
            ((self >> 16) & 0xff) as u8,
            ((self >> 24) & 0xff) as u8,
        ];
        assert(b@ =~= Self::spec_bytes(self));
        write_bytes(cells, &b);
    }

    fn read_cells(cells: &[MaybeByte]) -> (r: u32) {
        let ghost v = choose|v: u32| holds_bytes(cells@, #[trigger] Self::spec_bytes(v));
        proof {
            assert(cells@[0] == MaybeByte::Init(Self::spec_bytes(v)[0]));
            assert(cells@[1] == MaybeByte::Init(Self::spec_bytes(v)[1]));
            assert(cells@[2] == MaybeByte::Init(Self::spec_bytes(v)[2]));
            assert(cells@[3] == MaybeByte::Init(Self::spec_bytes(v)[3]));
        }
        let b0 = byte_at(cells, 0);
        let b1 = byte_at(cells, 1);
        let b2 = byte_at(cells, 2);
        let b3 = byte_at(cells, 3);
        let r = (b0 as u32)
            | (b1 as u32) << 8
            | (b2 as u32) << 16
            | (b3 as u32) << 24;
        proof {
            lemma_u32_bytes_round_trip(v);
        }
        r
    }
}

/// The u64 whose little-endian bytes are the first 8 of `b`.
pub open spec fn u64_of_bytes(b: Seq<u8>) -> u64 {
    (b[0] as u64)
        | (b[1] as u64) << 8
        | (b[2] as u64) << 16
        | (b[3] as u64) << 24
        | (b[4] as u64) << 32
        | (b[5] as u64) << 40
        | (b[6] as u64) << 48
        | (b[7] as u64) << 56
}

proof fn lemma_u64_bytes_round_trip(v: u64)
    ensures
        u64_of_bytes(<u64 as Erasable>::spec_bytes(v)) == v,
{
    assert(v == (((v & 0xff) as u8) as u64)
            | ((((v >> 8) & 0xff) as u8) as u64) << 8
            | ((((v >> 16) & 0xff) as u8) as u64) << 16
            | ((((v >> 24) & 0xff) as u8) as u64) << 24
            | ((((v >> 32) & 0xff) as u8) as u64) << 32
            | ((((v >> 40) & 0xff) as u8) as u64) << 40
            | ((((v >> 48) & 0xff) as u8) as u64) << 48
            | ((((v >> 56) & 0xff) as u8) as u64) << 56) by (bit_vector);
}

impl Erasable for u64 {
    /// Little-endian order.
    open spec fn spec_bytes(v: u64) -> Seq<u8> {
        seq![
            (v & 0xff) as u8,
            ((v >> 8) & 0xff) as u8,
            ((v >> 16) & 0xff) as u8,
            ((v >> 24) & 0xff) as u8,
            ((v >> 32) & 0xff) as u8,
            ((v >> 40) & 0xff) as u8,
            ((v >> 48) & 0xff) as u8,
            ((v >> 56) & 0xff) as u8,
        ]
    }

    proof fn lemma_bytes_len(v: u64) {
    }

    proof fn lemma_bytes_injective(a: u64, b: u64) {
        lemma_u64_bytes_round_trip(a);
        lemma_u64_bytes_round_trip(b);
    }

    fn write_cells(self, cells: &mut [MaybeByte]) {
        let b = [
            (self & 0xff) as u8,
            ((self >> 8) & 0xff) as u8,
            ((self >> 16) & 0xff) as u8,
            ((self >> 24) & 0xff) as u8,
            ((self >> 32) & 0xff) as u8,
            ((self >> 40) & 0xff) as u8,
            ((self >> 48) & 0xff) as u8,
            ((self >> 56) & 0xff) as u8,
        ];
        assert(b@ =~= Self::spec_bytes(self));
        write_bytes(cells, &b);
    }

    fn read_cells(cells: &[MaybeByte]) -> (r: u64) {
        let ghost v = choose|v: u64| holds_bytes(cells@, #[trigger] Self::spec_bytes(v));
        proof {
            assert(cells@[0] == MaybeByte::Init(Self::spec_bytes(v)[0]));
            assert(cells@[1] == MaybeByte::Init(Self::spec_bytes(v)[1]));
            assert(cells@[2] == MaybeByte::Init(Self::spec_bytes(v)[2]));
            assert(cells@[3] == MaybeByte::Init(Self::spec_bytes(v)[3]));
            assert(cells@[4] == MaybeByte::Init(Self::spec_bytes(v)[4]));
            assert(cells@[5] == MaybeByte::Init(Self::spec_bytes(v)[5]));
            assert(cells@[6] == MaybeByte::Init(Self::spec_bytes(v)[6]));
            assert(cells@[7] == MaybeByte::Init(Self::spec_bytes(v)[7]));
        }
        let b0 = byte_at(cells, 0);
        let b1 = byte_at(cells, 1);
        let b2 = byte_at(cells, 2);
        let b3 = byte_at(cells, 3);
        let b4 = byte_at(cells, 4);
        let b5 = byte_at(cells, 5);
        let b6 = byte_at(cells, 6);
        let b7 = byte_at(cells, 7);
        let r = (b0 as u64)
            | (b1 as u64) << 8
            | (b2 as u64) << 16
            | (b3 as u64) << 24
            | (b4 as u64) << 32
            | (b5 as u64) << 40
            | (b6 as u64) << 48
            | (b7 as u64) << 56;
        proof {
            lemma_u64_bytes_round_trip(v);
        }
        r
    }
}

} // verus!
