use std::marker::PhantomData;
use std::rc::Rc;
use vstd::prelude::*;

use vstd::layout::{align_of, size_of};

use crate::erasable::{holds_bytes, written, Erasable, MaybeByte};

verus! {

/// `C` cells of storage holding a value whose type has been erased.
pub struct TypeErased<const C: usize> {
    buf: [MaybeByte; C],
    // `Rc` is neither `Send` nor `Sync`, and neither is anything that holds it.
    no_send_sync: PhantomData<Rc<()>>,
}

/// `c` cells that were never written.
pub open spec fn uninit_cells(c: nat) -> Seq<MaybeByte> {
    Seq::new(c, |i: int| MaybeByte::Uninit)
}

/// The cells of a fresh container of `c` cells after `v` was moved into it: the bytes of `v`
/// first, the rest uninitialised.
pub open spec fn cells_holding<T: Erasable>(v: T, c: nat) -> Seq<MaybeByte> {
    written(uninit_cells(c), T::spec_bytes(v))
}

impl<const C: usize> View for TypeErased<C> {
    type V = Seq<MaybeByte>;

    closed spec fn view(&self) -> Seq<MaybeByte> {
        self.buf@
    }
}

impl<const C: usize> TypeErased<C> {
    /// The storage holds exactly `C` cells.
    pub broadcast proof fn lemma_len(e: &Self)
        ensures
            #[trigger] e@.len() == C,
    {
    }

    /// Whether a value of type `T` fits: its size is at most `C` and its alignment at most 8.
    pub open spec fn fits<T>() -> bool {
        size_of::<T>() <= C && align_of::<T>() <= 8
    }

    /// Whether the first cells hold the bytes of `v`.
    pub open spec fn holds<T: Erasable>(&self, v: T) -> bool {
        holds_bytes(self@, T::spec_bytes(v))
    }

    /// Whether the first cells hold the bytes of some value of type `T`.
    pub open spec fn holds_some<T: Erasable>(&self) -> bool {
        exists|v: T| #[trigger] self.holds(v)
    }

    /// Tells whether a value of type `T` fits in this container.
    pub fn can_hold<T>() -> (r: bool)
        ensures
            r == Self::fits::<T>(),
    {
        std::mem::size_of::<T>() <= C && std::mem::align_of::<T>() <= 8
    }

    /// Creates a container holding no value: every cell is uninitialised.
    pub fn empty() -> (r: Self)
        ensures
            r@ == uninit_cells(C as nat),
    {
        let r = TypeErased { buf: [MaybeByte::Uninit; C], no_send_sync: PhantomData };
        assert(r@ =~= uninit_cells(C as nat));
        r
    }

    /// Creates a container by moving `value` into it.
    ///
    /// The caller must make sure that `T` fits; [`can_hold`](Self::can_hold) tells.
    pub fn new<T: Erasable + 'static>(value: T) -> (r: Self)
        requires
            Self::fits::<T>(),
        ensures
            r@ == cells_holding(value, C as nat),
            r.holds(value),
    {
        Self::new_unchecked(value)
    }

    /// Creates a container by moving `value` into it: its bytes go into the first cells, and
    /// the other cells stay uninitialised.
    pub fn new_unchecked<T: Erasable>(value: T) -> (r: Self)
        requires
            Self::fits::<T>(),
        ensures
            r@ == cells_holding(value, C as nat),
            r.holds(value),
    {
        let mut this = Self::empty();
        proof {
            T::lemma_bytes_len(value);
        }
        value.write_cells(&mut this.buf);
        this
    }

    /// Reads a copy of the value that the container holds.
    ///
    /// The caller must make sure that the cells hold the bytes of a value of type `T`.
    pub fn assume_type_ref<T: Erasable + Copy>(&self) -> (r: T)
        requires
            Self::fits::<T>(),
            self.holds_some::<T>(),
        ensures
            self.holds(r),
    {
        T::read_cells(self.buf.as_slice())
    }

    /// Moves the value that the container holds out of it, consuming the container.
    ///
    /// The caller must make sure that the cells hold the bytes of a value of type `T`
    /// that has not been moved out yet.
    pub fn assume_type_take<T: Erasable>(self) -> (r: T)
        requires
            Self::fits::<T>(),
            self.holds_some::<T>(),
        ensures
            self.holds(r),
    {
        T::read_cells(self.buf.as_slice())
    }

    /// A container holds at most one value of a given type, so a borrow or a take that
    /// succeeds has only one value it can return.
    pub proof fn lemma_holds_unique<T: Erasable>(e: Self, a: T, b: T)
        requires
            e.holds(a),
            e.holds(b),
        ensures
            a == b,
    {
        T::lemma_bytes_len(a);
        T::lemma_bytes_len(b);
        assert forall|i: int| 0 <= i < T::spec_bytes(a).len() implies T::spec_bytes(a)[i]
            == T::spec_bytes(b)[i] by {
            assert(e@[i] == MaybeByte::Init(T::spec_bytes(a)[i]));
            assert(e@[i] == MaybeByte::Init(T::spec_bytes(b)[i]));
        }
        assert(T::spec_bytes(a) =~= T::spec_bytes(b));
        T::lemma_bytes_injective(a, b);
    }

    /// A value moved into a container comes back as itself: borrowing or taking a `T` from a
    /// container built from `v` returns `v`.
    pub proof fn lemma_read_back<T: Erasable>(v: T, e: Self, r: T)
        requires
            Self::fits::<T>(),
            e@ == cells_holding(v, C as nat),
            e.holds(r),
        ensures
            r == v,
    {
        T::lemma_bytes_len(v);
        T::lemma_bytes_len(r);
        assert forall|i: int| 0 <= i < T::spec_bytes(r).len() implies T::spec_bytes(r)[i]
            == T::spec_bytes(v)[i] by {
            assert(e@[i] == MaybeByte::Init(T::spec_bytes(r)[i]));
        }
        assert(T::spec_bytes(r) =~= T::spec_bytes(v));
        T::lemma_bytes_injective(r, v);
    }

    /// The storage of an empty container, seen through [`raw`](Self::raw), is `C` cells that
    /// were never written.
    pub proof fn lemma_empty_raw(e: Self, b: [MaybeByte; C])
        requires
            e@ == uninit_cells(C as nat),
            b@ == e@,
        ensures
            b@.len() == C,
            forall|i: int| 0 <= i < C ==> b@[i] == MaybeByte::Uninit,
    {
    }

    /// An empty container is the same as one that a `()` was moved into.
    pub proof fn lemma_empty_is_unit()
        ensures
            cells_holding((), C as nat) == uninit_cells(C as nat),
    {
        assert(cells_holding((), C as nat) =~= uninit_cells(C as nat));
    }

    /// The cells of storage, with nothing read into them.
    pub fn raw(&self) -> (r: &[MaybeByte; C])
        ensures
            r@ == self@,
    {
        &self.buf
    }

    /// The cells of storage, for writing.
    pub fn raw_mut(&mut self) -> (r: &mut [MaybeByte; C])
        ensures
            r@ == old(self)@,
            final(self)@ == final(r)@,
    {
        &mut self.buf
    }
}

} // verus!
