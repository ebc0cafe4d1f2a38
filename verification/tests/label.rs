use bfenc::label::identities;
use bfenc::label::label;
use bfenc::label::labels;
use bfenc::M;

#[test]
fn label_of_a_single_digit() {
    assert_eq!(label(0), "0");
    assert_eq!(label(7), "7");
    assert_eq!(label(9), "9");
}

#[test]
fn label_of_several_digits() {
    assert_eq!(label(10), "10");
    assert_eq!(label(98), "98");
    assert_eq!(label(100), "100");
    assert_eq!(label(127), "127");
    assert_eq!(label(1234567890), "1234567890");
}

#[test]
fn label_is_the_decimal_rendering() {
    for id in 0..1000usize {
        assert_eq!(label(id), id.to_string());
    }
    assert_eq!(label(usize::MAX), usize::MAX.to_string());
}

#[test]
fn labels_keep_the_order_of_the_slots() {
    assert_eq!(labels(&[98, 99, 1]), vec!["98", "99", "1"]);
    assert_eq!(labels(&[0, 0]), vec!["0", "0"]);
    assert!(labels(&[]).is_empty());
}

#[test]
fn identities_name_every_slot_once() {
    let all = identities();
    assert_eq!(all.len(), M);
    assert_eq!(all[0], "0");
    assert_eq!(all[9], "9");
    assert_eq!(all[10], "10");
    assert_eq!(all[127], "127");
    for (i, text) in all.iter().enumerate() {
        assert_eq!(*text, i.to_string());
        for earlier in &all[..i] {
            assert_ne!(earlier, text);
        }
    }
}
