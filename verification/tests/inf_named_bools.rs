//! Behaviour of the unbounded named registry.

use btypes::error::BBoolError;
use btypes::inf_named_bools::BNInf;

fn lookup(pairs: &Vec<(String, bool)>, key: &str) -> Option<bool> {
    for (name, value) in pairs.iter() {
        if name == key {
            return Some(*value);
        }
    }
    None
}

#[test]
fn test_new_and_default() {
    let bool = BNInf::new();
    assert!(bool.bools.store.is_empty());
    assert!(bool.all_names().is_empty());
}

#[test]
fn test_from_vec() {
    let initial = vec![5u8]; // Binary: 00000101
    let bool = BNInf::from_vec(initial.clone());
    assert_eq!(bool.bools.store, initial);
    assert!(bool.all_names().is_empty());
}

#[test]
fn test_get_set_operations() -> Result<(), BBoolError> {
    let mut bool = BNInf::new();

    // Test setting and getting named values
    bool.set("test1", true)?;
    assert!(bool.get("test1")?);

    bool.set("test2", false)?;
    assert!(!bool.get("test2")?);

    // Test updating existing value
    bool.set("test1", false)?;
    assert!(!bool.get("test1")?);

    Ok(())
}

#[test]
fn test_mass_operations() -> Result<(), BBoolError> {
    let mut bool = BNInf::new();

    // Test mass_set
    bool.mass_set(3, "test_{n}", "true,false{r}")?;
    assert!(bool.get("test_0")?);
    assert!(!bool.get("test_1")?);
    assert!(bool.get("test_2")?);

    // Test mass_get
    let values = bool.mass_get(&["test_0", "test_1", "test_2"])?;
    assert_eq!(values, vec![true, false, true]);

    // Test mass_toggle
    bool.mass_toggle(&["test_0", "test_1"])?;
    assert!(!bool.get("test_0")?);
    assert!(bool.get("test_1")?);

    Ok(())
}

#[test]
fn test_all_and_sorted() -> Result<(), BBoolError> {
    let mut bool = BNInf::new();

    // Set up test data
    bool.set("c", true)?;
    bool.set("a", false)?;
    bool.set("b", true)?;

    // Test all()
    let all_pairs = bool.all()?;
    assert_eq!(all_pairs.len(), 3);
    assert!(!lookup(&all_pairs, "a").unwrap());
    assert!(lookup(&all_pairs, "b").unwrap());
    assert!(lookup(&all_pairs, "c").unwrap());

    // Test sorted()
    let mut sorted = bool.sorted()?;
    let sorted_pairs = sorted.all()?;
    let mut keys: Vec<&String> = sorted_pairs.iter().map(|(name, _)| name).collect();
    keys.sort();
    assert_eq!(keys, vec!["a", "b", "c"]);

    Ok(())
}

#[test]
fn test_exists_and_delete() -> Result<(), BBoolError> {
    let mut bool = BNInf::new();

    bool.set("test", true)?;
    assert!(bool.exists_name("test"));

    bool.delete("test")?;
    assert!(!bool.exists_name("test"));

    Ok(())
}

#[test]
fn test_raw_access() {
    let mut bool = BNInf::from_vec(vec![5]); // Binary: 00000101

    assert_eq!(bool.get_raw(), &vec![5]);

    let raw_mut = bool.get_raw_mut();
    raw_mut[0] = 3; // Binary: 00000011
    assert_eq!(bool.get_raw(), &vec![3]);
}

#[test]
fn test_cap() -> Result<(), BBoolError> {
    let mut bool = BNInf::with_cap(8);
    bool.set("test1", true)?;
    bool.set("test2", true)?;

    assert!(bool.cap() == 8);

    let mut bool2 = BNInf::with_cap(9);
    bool2.set("test1", true)?;
    bool2.set("test2", true)?;

    assert!(bool.cap() == 8);

    Ok(())
}

#[test]
fn test_clear() -> Result<(), BBoolError> {
    let mut bool = BNInf::new();
    bool.set("test1", true)?;
    bool.set("test2", true)?;

    bool.clear();
    assert!(bool.all_names().is_empty());
    assert!(bool.bools.store.is_empty());

    Ok(())
}

#[test]
fn test_error_conditions() -> Result<(), BBoolError> {
    let mut bool = BNInf::new();

    // Test getting non-existent name
    assert!(bool.get("nonexistent").is_err());

    // Test invalid pattern in mass_set
    assert!(bool.mass_set(3, "test", "true,false{r}").is_err()); // Missing {n}
    assert!(bool.mass_set(3, "test_{n}", "true").is_err()); // Insufficient values

    Ok(())
}
