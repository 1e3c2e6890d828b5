//! Slot-level behaviour of the fixed and unbounded bit stores: writes
//! hit exactly the requested slot, out-of-range access is rejected
//! without mutation, the raw value round-trips, sorting packs the set
//! slots to the top, and the unbounded store reads unwritten slots as
//! `false` while only ever growing.

use btypes::bbool::{B128, B16, B32, B64, B8};
use btypes::error::BBoolError;
use btypes::inf_bbool::BInf;

#[test]
fn set_then_get_hits_one_slot_per_width() {
    // Width 8.
    let mut b = B8::new();
    b.set_at_pos(3, true).unwrap();
    assert!(b.get_at_pos(3).unwrap());
    for pos in 0..8u8 {
        if pos != 3 {
            assert!(!b.get_at_pos(pos).unwrap());
        }
    }
    // Width 16.
    let mut b = B16::new();
    b.set_at_pos(15, true).unwrap();
    assert!(b.get_at_pos(15).unwrap());
    assert_eq!(*b.get_raw(), 1u16 << 15);
    // Width 32.
    let mut b = B32::from_num(u32::MAX);
    b.set_at_pos(31, false).unwrap();
    assert!(!b.get_at_pos(31).unwrap());
    assert_eq!(*b.get_raw(), u32::MAX >> 1);
    // Width 64.
    let mut b = B64::new();
    b.set_at_pos(63, true).unwrap();
    assert_eq!(*b.get_raw(), 1u64 << 63);
    // Width 128.
    let mut b = B128::new();
    b.set_at_pos(127, true).unwrap();
    assert_eq!(*b.get_raw(), 1u128 << 127);
}

#[test]
fn out_of_range_set_fails_without_mutation() {
    let mut b = B8::from_num(0b1010_0110);
    let r = b.set_at_pos(8, true);
    assert!(matches!(r, Err(BBoolError::InvalidPos(8))));
    assert_eq!(*b.get_raw(), 0b1010_0110);

    let mut b = B64::from_num(77);
    let r = b.set_at_pos(64, false);
    assert!(matches!(r, Err(BBoolError::InvalidPos(64))));
    assert_eq!(*b.get_raw(), 77);
}

#[test]
fn raw_round_trip_per_width() {
    assert_eq!(*B8::from_num(0xA5).get_raw(), 0xA5);
    assert_eq!(*B16::from_num(0xBEEF).get_raw(), 0xBEEF);
    assert_eq!(*B32::from_num(0xDEAD_BEEF).get_raw(), 0xDEAD_BEEF);
    assert_eq!(*B64::from_num(u64::MAX - 1).get_raw(), u64::MAX - 1);
    assert_eq!(*B128::from_num(1u128 << 100).get_raw(), 1u128 << 100);
}

#[test]
fn sorted_packs_trues_to_the_top() {
    // Four set slots among eight: sorted has exactly the top four set.
    let mut b = B8::from_num(0b0010_1101);
    let sorted = b.sorted().unwrap();
    assert_eq!(*sorted.get_raw(), 0b1111_0000);
    // Count is preserved.
    let all = b.sorted().unwrap().get_raw_cl().count_ones();
    assert_eq!(all, 0b0010_1101u8.count_ones());

    let mut b = B16::from_num(0b1000_0000_0000_0001);
    assert_eq!(*b.sorted().unwrap().get_raw(), 0b1100_0000_0000_0000);

    let mut b = B8::from_num(0);
    assert_eq!(*b.sorted().unwrap().get_raw(), 0);
    let mut b = B8::from_num(u8::MAX);
    assert_eq!(*b.sorted().unwrap().get_raw(), u8::MAX);
}

#[test]
fn all_returns_slots_in_order() {
    let mut b = B8::from_num(5);
    let all = b.all().unwrap();
    assert_eq!(all, vec![true, false, true, false, false, false, false, false]);
}

#[test]
fn cursor_ops_check_their_range() {
    let mut b = B8::from_num(0b01);
    assert!(b.get().unwrap());
    assert!(b.inc().is_ok());
    assert!(!b.get().unwrap());
    assert!(b.shp(7).is_ok());
    // The last slot cannot be advanced past.
    assert!(matches!(b.inc(), Err(BBoolError::InvalidHeadPos(7))));
    assert!(matches!(b.shp(8), Err(BBoolError::InvalidHeadPos(8))));
    assert_eq!(*b.ghp(), 7);
}

#[test]
fn next_b_reads_then_advances() {
    let mut b = B8::from_num(0b10);
    assert!(!b.next_b().unwrap());
    assert!(b.next_b().unwrap());
    assert_eq!(*b.ghp(), 2);

    // next_b_res also wipes the slot it read.
    let mut b = B8::from_num(0b1);
    assert!(b.next_b_res().unwrap());
    assert_eq!(*b.get_raw(), 0);
    assert_eq!(*b.ghp(), 1);
}

#[test]
fn set_at_cursor_and_clear() {
    let mut b = B8::new();
    b.shp(2).unwrap();
    b.set(true).unwrap();
    assert_eq!(*b.get_raw(), 0b100);
    b.clear();
    assert_eq!(*b.get_raw(), 0);
    assert_eq!(*b.ghp(), 2);
}

#[test]
fn clone_reads_match_direct_reads() {
    let b = B8::from_num(0b101);
    assert_eq!(b.get_cl().unwrap(), b.get().unwrap());
    assert_eq!(b.get_cl_at_pos(2).unwrap(), b.get_at_pos(2).unwrap());
    assert_eq!(b.get_raw_cl(), *b.get_raw());
    assert!(b.get_unchecked_cl());
    assert!(b.get_unchecked_cl_at_pos(2));
}

#[test]
fn unwritten_slots_read_false() {
    let b = BInf::new();
    assert!(!b.get_at_pos(0).unwrap());
    assert!(!b.get_at_pos(1_000_000).unwrap());
    let b = BInf::from_vec(vec![1]);
    assert!(b.get_at_pos(0).unwrap());
    assert!(!b.get_at_pos(8).unwrap());
}

#[test]
fn writes_only_grow_the_backing() {
    let mut b = BInf::new();
    b.set_at_pos(1000, true).unwrap();
    // Bit 1000 lives in byte 125, so the backing covers 126 bytes.
    assert_eq!(b.get_raw().len(), 126);
    assert!(b.get_at_pos(1000).unwrap());
    assert!(!b.get_at_pos(999).unwrap());

    // A later write to a lower slot never shrinks the backing.
    b.set_at_pos(3, false).unwrap();
    assert_eq!(b.get_raw().len(), 126);

    // Writing false still grows the backing to cover the slot.
    let mut b = BInf::new();
    b.set_at_pos(9, false).unwrap();
    assert_eq!(b.get_raw().len(), 2);
}

#[test]
fn cursor_writes_materialise_the_head_byte() {
    // Writing false through the cursor still grows the backing to
    // cover the head byte.
    let mut b = BInf::new();
    b.shp(9).unwrap();
    b.set(false).unwrap();
    assert_eq!(b.get_raw().len(), 2);

    // next_b_res clears the slot and materialises its byte too.
    let mut b = BInf::new();
    b.shp(17).unwrap();
    assert!(!b.next_b_res().unwrap());
    assert_eq!(b.get_raw().len(), 3);
    assert_eq!(*b.ghp(), 18);

    // The unchecked cursor writer behaves the same, and a later write
    // to a lower slot keeps the backing.
    b.shp(4).unwrap();
    b.set_unchecked(true);
    assert_eq!(b.get_raw().len(), 3);
    assert!(b.get().unwrap());
}

#[test]
fn range_returns_the_window() {
    let mut b = BInf::new();
    b.set_at_pos(0, true).unwrap();
    b.set_at_pos(1, false).unwrap();
    let range_bools = b.range(0, 2).unwrap();
    assert_eq!(range_bools, vec![true, false]);
    // A window past the backing reads false.
    assert_eq!(b.range(14, 17).unwrap(), vec![false, false, false]);
    assert!(matches!(b.range(5, 2), Err(BBoolError::InvalidRange(5, 2))));
    assert!(b.range(3, 3).unwrap().is_empty());
}

#[test]
fn inf_store_mirrors_fixed_cursor_api() {
    let mut b = BInf::from_vec(vec![5]);
    assert!(b.get().unwrap());
    assert!(b.next_b().unwrap());
    assert!(!b.next_b().unwrap());
    assert_eq!(*b.ghp(), 2);
    b.shp(0).unwrap();
    assert!(b.next_b_res().unwrap());
    assert_eq!(b.get_raw(), &vec![4]);
    b.clear();
    assert!(b.get_raw().is_empty());
}

#[test]
fn inf_sorted_packs_trues_to_the_top() {
    let b = BInf::from_vec(vec![0b0000_0101]);
    let sorted = b.sorted().unwrap();
    // Two of eight materialised slots are set: the top two hold them.
    assert_eq!(sorted.get_raw(), &vec![0b1100_0000]);

    let b = BInf::from_vec(vec![0xFF, 0x00]);
    let sorted = b.sorted().unwrap();
    assert_eq!(sorted.get_raw(), &vec![0x00, 0xFF]);
}

#[test]
fn reserved_capacity_covers_the_hint() {
    // A store that reserved 32 bits but materialised only one byte
    // still reports room for the whole reservation.
    let mut b = BInf::with_cap(32);
    b.set_at_pos(0, true).unwrap();
    assert_eq!(b.get_raw().len(), 1);
    assert!(b.cap() >= 32);
}

#[test]
fn unchecked_accessors_match_checked_ones() {
    let mut b = B8::new();
    b.set_unchecked_at_pos(4, true);
    assert!(b.get_unchecked_at_pos(4));
    assert_eq!(b.get_at_pos(4).unwrap(), true);
    b.shp_unchecked(4);
    assert!(b.get_unchecked());
    b.set_unchecked(false);
    assert_eq!(*b.get_raw(), 0);

    let mut b = BInf::new();
    b.set_unchecked_at_pos(12, true);
    assert!(b.get_unchecked_at_pos(12));
    b.shp_unchecked(12);
    assert!(b.get_unchecked());
    b.inc_unchecked();
    assert_eq!(*b.ghp(), 13);
}

#[test]
fn mutable_accessors_write_through() {
    let mut b = B8::from_num(0);
    *b.get_raw_mut() = 0b11;
    assert!(b.get_at_pos(0).unwrap() && b.get_at_pos(1).unwrap());
    *b.ghp_mut() = 1;
    assert_eq!(*b.ghp(), 1);

    let mut b = BInf::from_vec(vec![0]);
    b.get_raw_mut().push(0xFF);
    assert!(b.get_at_pos(8).unwrap());
    *b.ghp_mut() = 9;
    assert!(b.get().unwrap());
}

#[test]
fn capacity_is_the_backing_width() {
    assert_eq!(B8::capacity(), 8);
    assert_eq!(B16::capacity(), 16);
    assert_eq!(B32::capacity(), 32);
    assert_eq!(B64::capacity(), 64);
    assert_eq!(B128::capacity(), 128);
}

#[test]
fn signed_backings_behave_like_unsigned_ones() {
    let mut b: btypes::bbool::BetterBool<i16> = btypes::bbool::BetterBool::new();
    b.set_at_pos(15, true).unwrap();
    assert!(b.get_at_pos(15).unwrap());
    assert_eq!(*b.get_raw(), i16::MIN);
    b.set_at_pos(15, false).unwrap();
    assert_eq!(*b.get_raw(), 0);
    assert!(matches!(
        b.set_at_pos(16, true),
        Err(BBoolError::InvalidPos(16))
    ));

    let mut reg: btypes::named_bools::BetterBoolNamed<i32> =
        btypes::named_bools::BetterBoolNamed::new();
    reg.add("neg", true).unwrap();
    assert!(reg.get("neg").unwrap());
    assert_eq!(reg.get_raw_cl(), 1i32);
}

#[test]
fn default_stores_start_empty() {
    let b = B8::default();
    assert_eq!(*b.get_raw(), 0);
    assert_eq!(*b.ghp(), 0);
    let b = BInf::default();
    assert!(b.get_raw().is_empty());
}

#[test]
fn positions_at_the_addressable_limit_are_rejected() {
    let mut b = BInf::new();
    assert!(matches!(
        b.set_at_pos(usize::MAX, true),
        Err(BBoolError::InvalidPosInf(usize::MAX))
    ));
    assert!(matches!(b.shp(usize::MAX), Err(BBoolError::InvalidHeadPosInf(usize::MAX))));
    assert!(matches!(b.range(usize::MAX, 3), Err(BBoolError::InvalidPosInf(usize::MAX))));
}

#[test]
fn inf_all_lists_materialised_slots() {
    let b = BInf::from_vec(vec![3]);
    let all = b.all().unwrap();
    assert_eq!(all.len(), 8);
    assert!(all[0] && all[1]);
    assert!(!all[2]);
}
