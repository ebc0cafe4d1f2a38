use bfenc::store::Sk;
use bfenc::M;

/// A store whose slot `i` holds the key `1000 + i`.
fn numbered_store() -> Sk<u64> {
    Sk::from_keys((0..M as u64).map(|i| 1000 + i).collect()).unwrap()
}

/// What every slot of the store holds.
fn store_contents(sk: &Sk<u64>) -> Vec<Option<u64>> {
    (0..M).map(|i| sk.get(i).cloned()).collect()
}

#[test]
fn from_keys_fills_every_slot_in_order() {
    let sk = numbered_store();
    for i in 0..M {
        assert_eq!(sk.get(i), Some(&(1000 + i as u64)));
    }
}

#[test]
fn from_keys_wants_one_key_per_slot() {
    assert!(Sk::<u64>::from_keys(Vec::new()).is_none());
    assert!(Sk::from_keys(vec![7u64; M - 1]).is_none());
    assert!(Sk::from_keys(vec![7u64; M + 1]).is_none());
    assert!(Sk::from_keys(vec![7u64; M]).is_some());
}

#[test]
fn get_outside_the_universe_is_none() {
    let sk = numbered_store();
    assert_eq!(sk.get(M), None);
    assert_eq!(sk.get(usize::MAX), None);
}

#[test]
fn delete_empties_the_listed_slots_only() {
    let mut sk = numbered_store();
    sk.delete(&[3, 127, 0]);
    for i in 0..M {
        if i == 0 || i == 3 || i == 127 {
            assert_eq!(sk.get(i), None);
        } else {
            assert_eq!(sk.get(i), Some(&(1000 + i as u64)));
        }
    }
}

#[test]
fn delete_nothing_changes_nothing() {
    let mut sk = numbered_store();
    let before = store_contents(&sk);
    sk.delete(&[]);
    assert_eq!(store_contents(&sk), before);
}

#[test]
fn delete_is_idempotent() {
    let mut once = numbered_store();
    once.delete(&[5, 9, 64]);
    let mut twice = numbered_store();
    twice.delete(&[5, 9, 64]);
    twice.delete(&[5, 9, 64]);
    assert_eq!(store_contents(&once), store_contents(&twice));
    twice.delete(&[9]);
    assert_eq!(store_contents(&once), store_contents(&twice));
}

#[test]
fn delete_takes_repeated_entries() {
    let mut sk = numbered_store();
    sk.delete(&[5, 5, 5]);
    assert_eq!(sk.get(5), None);
    assert_eq!(store_contents(&sk).iter().filter(|slot| slot.is_none()).count(), 1);
}

#[test]
fn delete_ignores_entries_outside_the_universe() {
    let mut sk = numbered_store();
    let before = store_contents(&sk);
    sk.delete(&[M, M + 1, usize::MAX]);
    assert_eq!(store_contents(&sk), before);
    sk.delete(&[M, 1]);
    assert_eq!(sk.get(1), None);
    assert_eq!(sk.get(2), Some(&1002));
}

#[test]
fn deleted_slots_stay_empty() {
    let mut sk = numbered_store();
    sk.delete(&[10]);
    sk.delete(&[11]);
    sk.delete(&[12, 13]);
    for i in 10..14 {
        assert_eq!(sk.get(i), None);
    }
    assert_eq!(store_contents(&sk).iter().filter(|slot| slot.is_some()).count(), M - 4);
}

#[test]
fn first_present_follows_the_order_given() {
    let sk = numbered_store();
    assert_eq!(sk.first_present(&[98, 99, 1]), Some((98, &1098)));
    assert_eq!(sk.first_present(&[1, 99, 98]), Some((1, &1001)));
    assert_eq!(sk.first_present(&[]), None);
}

#[test]
fn first_present_skips_deleted_slots() {
    let mut sk = numbered_store();
    sk.delete(&[98]);
    assert_eq!(sk.first_present(&[98, 99, 1]), Some((99, &1099)));
    sk.delete(&[99]);
    assert_eq!(sk.first_present(&[98, 99, 1]), Some((1, &1001)));
    sk.delete(&[1]);
    assert_eq!(sk.first_present(&[98, 99, 1]), None);
    assert_eq!(sk.first_present(&[98, 99, 1, 2]), Some((2, &1002)));
}

#[test]
fn first_present_skips_slots_outside_the_universe() {
    let sk = numbered_store();
    assert_eq!(sk.first_present(&[M, 4]), Some((4, &1004)));
    assert_eq!(sk.first_present(&[M, usize::MAX]), None);
}
