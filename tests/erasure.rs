use std::marker::PhantomData;

use typeless::{Erasable, MaybeByte, TypeErased};

fn round_trip_ref<T: Erasable + Copy + PartialEq + std::fmt::Debug + 'static>(v: T) {
    assert!(TypeErased::<16>::can_hold::<T>());
    let e = TypeErased::<16>::new(v);
    assert_eq!(e.assume_type_ref::<T>(), v);
}

fn round_trip_take<T: Erasable + Copy + PartialEq + std::fmt::Debug + 'static>(v: T) {
    let e = TypeErased::<8>::new(v);
    assert_eq!(e.assume_type_take::<T>(), v);
}

#[test]
fn borrow_returns_the_stored_value() {
    round_trip_ref(());
    round_trip_ref(true);
    round_trip_ref(false);
    round_trip_ref(0xabu8);
    round_trip_ref(0xbeefu16);
    round_trip_ref(0xdead_beefu32);
    round_trip_ref(0x0123_4567_89ab_cdefu64);
    round_trip_ref(u64::MAX);
}

#[test]
fn take_returns_the_stored_value() {
    round_trip_take(());
    round_trip_take(true);
    round_trip_take(7u8);
    round_trip_take(0x1234u16);
    round_trip_take(0x1234_5678u32);
    round_trip_take(0xfedc_ba98_7654_3210u64);
    round_trip_take(0u64);
}

#[test]
fn empty_has_capacity_cells_all_uninit() {
    let e = TypeErased::<12>::empty();
    let raw = e.raw();
    assert_eq!(raw.len(), 12);
    assert!(raw.iter().all(|c| *c == MaybeByte::Uninit));
    let z = TypeErased::<0>::empty();
    assert_eq!(z.raw().len(), 0);
}

#[test]
fn empty_matches_unit_value() {
    let a = TypeErased::<5>::empty();
    let b = TypeErased::<5>::new(());
    assert_eq!(a.raw(), b.raw());
}

#[test]
fn u64_is_stored_little_endian_and_rest_stays_uninit() {
    let e = TypeErased::<10>::new(0x0102_0304_0506_0708u64);
    let raw = e.raw();
    let expected = [8u8, 7, 6, 5, 4, 3, 2, 1];
    for (i, b) in expected.iter().enumerate() {
        assert_eq!(raw[i], MaybeByte::Init(*b));
    }
    assert_eq!(raw[8], MaybeByte::Uninit);
    assert_eq!(raw[9], MaybeByte::Uninit);
}

#[test]
fn bool_and_small_integers_bytes() {
    let t = TypeErased::<2>::new(true);
    assert_eq!(t.raw(), &[MaybeByte::Init(1), MaybeByte::Uninit]);
    let f = TypeErased::<1>::new(false);
    assert_eq!(f.raw(), &[MaybeByte::Init(0)]);
    let h = TypeErased::<2>::new(0xa1b2u16);
    assert_eq!(h.raw(), &[MaybeByte::Init(0xb2), MaybeByte::Init(0xa1)]);
    let w = TypeErased::<4>::new_unchecked(0x0a0b_0c0du32);
    assert_eq!(
        w.raw(),
        &[
            MaybeByte::Init(0x0d),
            MaybeByte::Init(0x0c),
            MaybeByte::Init(0x0b),
            MaybeByte::Init(0x0a)
        ]
    );
}

#[test]
fn exact_fit_uses_every_cell() {
    let e = TypeErased::<8>::new(u64::MAX);
    assert!(e.raw().iter().all(|c| *c == MaybeByte::Init(0xff)));
    assert_eq!(e.assume_type_take::<u64>(), u64::MAX);
}

#[test]
fn bytes_written_through_raw_mut_read_back_as_value() {
    let mut e = TypeErased::<4>::empty();
    {
        let raw = e.raw_mut();
        raw[0] = MaybeByte::Init(0x34);
        raw[1] = MaybeByte::Init(0x12);
    }
    assert_eq!(e.raw()[2], MaybeByte::Uninit);
    assert_eq!(e.assume_type_ref::<u16>(), 0x1234);
    assert_eq!(e.assume_type_take::<u8>(), 0x34);
}

#[test]
fn too_large_a_type_does_not_fit() {
    assert!(!TypeErased::<1>::can_hold::<u64>());
    assert!(!TypeErased::<7>::can_hold::<u64>());
    assert!(TypeErased::<8>::can_hold::<u64>());
    assert!(TypeErased::<1>::can_hold::<u8>());
    assert!(TypeErased::<0>::can_hold::<()>());
    assert!(!TypeErased::<0>::can_hold::<u8>());
}

#[test]
fn too_strict_an_alignment_does_not_fit() {
    assert!(std::mem::align_of::<u128>() > 8);
    assert!(!TypeErased::<64>::can_hold::<u128>());
}

struct Probe<T>(PhantomData<T>);

trait SendYes {
    fn is_send(&self) -> bool {
        true
    }
}

impl<T: Send> SendYes for Probe<T> {}

trait SendNo {
    fn is_send(&self) -> bool {
        false
    }
}

impl<T> SendNo for &Probe<T> {}

trait SyncYes {
    fn is_sync(&self) -> bool {
        true
    }
}

impl<T: Sync> SyncYes for Probe<T> {}

trait SyncNo {
    fn is_sync(&self) -> bool {
        false
    }
}

impl<T> SyncNo for &Probe<T> {}

#[test]
fn container_is_neither_send_nor_sync() {
    assert!((&Probe::<u64>(PhantomData)).is_send());
    assert!((&Probe::<u64>(PhantomData)).is_sync());
    assert!(!(&Probe::<TypeErased<8>>(PhantomData)).is_send());
    assert!(!(&Probe::<TypeErased<8>>(PhantomData)).is_sync());
}
