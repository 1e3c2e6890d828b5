//! Registry behaviour: the add/exists/get/delete round trip, the exact
//! capacity of fixed registries, the mass-assignment grammar, and the
//! dense re-positioning done by sort.

use btypes::bbool::B8;
use btypes::error::BBoolError;
use btypes::inf_named_bools::BNInf;
use btypes::named_bools::{BN128, BN8};

#[test]
fn add_exists_get_delete_round_trip() {
    let mut reg = BN128::new();
    reg.add("x", true).unwrap();
    assert!(reg.exists_name("x"));
    assert!(reg.get("x").unwrap());
    reg.delete("x").unwrap();
    assert!(!reg.exists_name("x"));
    assert!(matches!(reg.get("x"), Err(BBoolError::NotFound(_))));
}

#[test]
fn delete_clears_the_slot_but_keeps_the_position_retired() {
    let mut reg = BN8::new();
    reg.add("a", true).unwrap();
    reg.add("b", true).unwrap();
    reg.delete("a").unwrap();
    // The slot of "a" is cleared; "b" keeps its own.
    assert_eq!(*reg.get_raw(), 0b10);
    // The retired position is not reused: "c" takes position 2.
    reg.add("c", true).unwrap();
    assert_eq!(*reg.get_raw(), 0b110);
}

#[test]
fn fixed_registry_accepts_exactly_width_many_names() {
    let mut reg = BN8::new();
    for i in 0..8 {
        assert!(reg.set(&format!("n{}", i), true).is_ok());
    }
    let r = reg.set("one_too_many", true);
    assert!(matches!(r, Err(BBoolError::CollectionCapacityReached)));
    // The failing set did not touch the store or the names.
    assert_eq!(*reg.get_raw(), u8::MAX);
    assert_eq!(reg.all_names().len(), 8);
    // Deletion retires a position without freeing capacity.
    reg.delete("n3").unwrap();
    let r = reg.set("still_too_many", true);
    assert!(matches!(r, Err(BBoolError::CollectionCapacityReached)));
}

#[test]
fn mass_set_cycles_over_the_value_list() {
    let mut reg = BNInf::new();
    reg.mass_set(4, "f_{n}", "true,false{r}").unwrap();
    assert!(reg.get("f_0").unwrap());
    assert!(!reg.get("f_1").unwrap());
    assert!(reg.get("f_2").unwrap());
    assert!(!reg.get("f_3").unwrap());
}

#[test]
fn mass_set_repeats_a_single_value() {
    let mut reg = BNInf::new();
    reg.mass_set(3, "t{n}", "true{r}").unwrap();
    assert!(reg.get("t0").unwrap());
    assert!(reg.get("t1").unwrap());
    assert!(reg.get("t2").unwrap());
}

#[test]
fn mass_set_rejects_a_pattern_without_placeholder() {
    let mut reg = BNInf::new();
    let r = reg.mass_set(2, "bad", "true,false");
    assert!(matches!(r, Err(BBoolError::InvalidPattern(_))));
    assert!(reg.all_names().is_empty());
}

#[test]
fn mass_set_on_the_fixed_registry() {
    let mut reg = BN128::new();
    reg.mass_set(4, "val_{n}", "true,false,true,true").unwrap();
    assert!(reg.get("val_0").unwrap());
    assert!(!reg.get("val_1").unwrap());
    assert!(reg.get("val_2").unwrap());
    assert!(reg.get("val_3").unwrap());
}

#[test]
fn mass_set_rejects_an_unparseable_token() {
    let mut reg = BN128::new();
    let r = reg.mass_set(2, "x{n}", "true,maybe");
    assert!(matches!(r, Err(BBoolError::InvalidBooleanToken(_))));
    assert!(reg.all_names().is_empty());
}

#[test]
fn mass_set_tokens_are_case_insensitive_and_trimmed() {
    let mut reg = BN128::new();
    reg.mass_set(3, "c{n}", " TRUE , False ,tRuE").unwrap();
    assert!(reg.get("c0").unwrap());
    assert!(!reg.get("c1").unwrap());
    assert!(reg.get("c2").unwrap());
}

#[test]
fn mass_set_reuses_the_last_value_when_a_misplaced_marker_passes_the_check() {
    // The repeat marker is not at the end, so the list does not cycle,
    // but its presence lets the length check pass: indices past the
    // list reuse the last listed value.
    let mut reg = BN128::new();
    reg.mass_set(3, "q{n}", "true{r},false").unwrap();
    assert!(reg.get("q0").unwrap());
    assert!(!reg.get("q1").unwrap());
    assert!(!reg.get("q2").unwrap());
}

#[test]
fn mass_set_overflowing_the_fixed_capacity_keeps_earlier_writes() {
    let mut reg = BN8::new();
    let r = reg.mass_set(9, "v{n}", "true{r}");
    assert!(matches!(r, Err(BBoolError::CollectionCapacityReached)));
    // The first eight entries were applied before the failure.
    assert_eq!(reg.all_names().len(), 8);
    assert!(reg.get("v7").unwrap());
}

#[test]
fn mass_get_and_toggle_stop_at_the_first_missing_name() {
    let mut reg = BN128::new();
    reg.add("a", true).unwrap();
    reg.add("b", false).unwrap();
    assert!(matches!(reg.mass_get(&["a", "ghost", "b"]), Err(BBoolError::NotFound(_))));
    let r = reg.mass_toggle(&["a", "ghost", "b"]);
    assert!(matches!(r, Err(BBoolError::NotFound(_))));
    // The toggle of "a" before the failure stays applied; "b" is untouched.
    assert!(!reg.get("a").unwrap());
    assert!(!reg.get("b").unwrap());
}

#[test]
fn toggle_flips_in_place() {
    let mut reg = BNInf::new();
    reg.add("flag", false).unwrap();
    reg.toggle("flag").unwrap();
    assert!(reg.get("flag").unwrap());
    reg.toggle("flag").unwrap();
    assert!(!reg.get("flag").unwrap());
    assert!(matches!(reg.toggle("missing"), Err(BBoolError::NotFound(_))));
}

#[test]
fn sort_assigns_dense_positions_in_name_order() {
    let mut reg = BN128::new();
    reg.add("c", true).unwrap();
    reg.add("a", false).unwrap();
    reg.add("b", true).unwrap();
    reg.sort().unwrap();
    let names = reg.all_names();
    assert_eq!(names.len(), 3);
    for (i, (name, pos)) in names.iter().enumerate() {
        assert_eq!(*pos as usize, i);
        if i > 0 {
            assert!(names[i - 1].0 < *name);
        }
    }
    assert_eq!(names[0].0, "a");
    assert_eq!(names[1].0, "b");
    assert_eq!(names[2].0, "c");
    // Values follow their names.
    assert!(!reg.get("a").unwrap());
    assert!(reg.get("b").unwrap());
    assert!(reg.get("c").unwrap());
}

#[test]
fn sort_drops_gaps_left_by_deletions() {
    let mut reg = BNInf::new();
    reg.add("x", true).unwrap();
    reg.add("y", true).unwrap();
    reg.add("z", true).unwrap();
    reg.delete("y").unwrap();
    reg.sort().unwrap();
    let names = reg.all_names();
    assert_eq!(names.len(), 2);
    assert_eq!(names[0], ("x".to_string(), 0));
    assert_eq!(names[1], ("z".to_string(), 1));
}

#[test]
fn sorted_leaves_the_source_untouched() {
    let mut reg = BN128::new();
    reg.add("b", true).unwrap();
    reg.add("a", false).unwrap();
    let sorted = reg.sorted().unwrap();
    assert_eq!(sorted.all_names()[0].0, "a");
    // The source keeps its insertion order.
    assert_eq!(reg.all_names()[0].0, "b");
}

#[test]
fn set_and_add_agree_on_known_names() {
    let mut reg = BN8::new();
    reg.set("k", true).unwrap();
    reg.add("k", false).unwrap();
    assert!(!reg.get("k").unwrap());
    assert_eq!(reg.all_names().len(), 1);
}

#[test]
fn head_position_errors_carry_the_offending_value() {
    let mut b = B8::new();
    assert!(matches!(b.shp(9), Err(BBoolError::InvalidHeadPos(9))));
    b.shp(7).unwrap();
    assert!(matches!(b.set(true), Ok(())));
    assert!(b.get().unwrap());
}

#[test]
fn registry_mut_accessors_write_through() {
    let mut reg = BN8::new();
    reg.add("a", false).unwrap();
    *reg.get_raw_mut() = 1;
    assert!(reg.get("a").unwrap());
    let names = reg.all_names_mut();
    names[0].0 = "b".to_string();
    assert!(reg.exists_name("b"));
    assert!(!reg.exists_name("a"));

    let mut reg = BNInf::new();
    reg.add("x", true).unwrap();
    let names = reg.all_names_mut();
    names[0].0 = "y".to_string();
    assert!(reg.exists_name("y"));
}

#[test]
fn registry_all_bools_mirrors_the_store() {
    let mut reg = BN8::new();
    reg.add("a", true).unwrap();
    reg.add("b", false).unwrap();
    reg.add("c", true).unwrap();
    let bools = reg.all_bools().unwrap();
    assert_eq!(bools.len(), 8);
    assert_eq!(&bools[0..3], &[true, false, true]);

    let mut reg = BNInf::new();
    reg.add("a", true).unwrap();
    let bools = reg.all_bools().unwrap();
    assert_eq!(bools.len(), 8);
    assert!(bools[0]);
}

#[test]
fn clear_empties_names_and_slots_but_not_positions() {
    let mut reg = BN8::new();
    reg.add("a", true).unwrap();
    reg.add("b", true).unwrap();
    reg.clear();
    assert!(reg.all_names().is_empty());
    assert_eq!(*reg.get_raw(), 0);
    // Positions already handed out stay retired after a clear.
    for i in 0..6 {
        reg.add(&format!("r{}", i), true).unwrap();
    }
    assert!(matches!(reg.add("r6", true), Err(BBoolError::CollectionCapacityReached)));
}
