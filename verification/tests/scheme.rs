use bfenc::sampler::sample;
use bfenc::scheme::opening;
use bfenc::scheme::opening_bytes;
use bfenc::scheme::puncture;
use bfenc::scheme::puncture_bytes;
use bfenc::scheme::recipients;
use bfenc::scheme::recipients_bytes;
use bfenc::store::Sk;
use bfenc::M;
use rand::thread_rng;
use rand::Rng;

// A stand-in for the broadcast scheme, with its four operations. A header
// opens with the slot key of any identity it is addressed to, if decryption
// is given that identity and the full list the header was made for.

struct ToyMaster(u64);

#[derive(Clone, Debug, PartialEq)]
struct ToyKey {
    id: String,
    share: u64,
}

struct ToyHeader {
    ids: Vec<String>,
    sealed: u64,
}

fn toy_setup<R: Rng>(rng: &mut R) -> ToyMaster {
    ToyMaster(rng.gen::<u64>())
}

fn toy_keygen(master: &ToyMaster, id: &str) -> ToyKey {
    ToyKey { id: id.to_string(), share: master.0 }
}

fn toy_encrypt<R: Rng>(rng: &mut R, master: &ToyMaster, ids: &[String]) -> (u64, ToyHeader) {
    let key = rng.gen::<u64>();
    (key, ToyHeader { ids: ids.to_vec(), sealed: key ^ master.0 })
}

fn toy_decrypt(key: &ToyKey, header: &ToyHeader, id: &str, ids: &[String]) -> Option<u64> {
    if key.id == id && header.ids == ids && header.ids.iter().any(|to| to == id) {
        Some(header.sealed ^ key.share)
    } else {
        None
    }
}

// The scheme on top of the stand-in.

fn keypair<R: Rng>(rng: &mut R) -> (ToyMaster, Sk<ToyKey>) {
    let master = toy_setup(rng);
    let keys = bfenc::label::identities().iter().map(|id| toy_keygen(&master, id)).collect();
    let sk = Sk::from_keys(keys).unwrap();
    (master, sk)
}

fn enc<R: Rng>(rng: &mut R, pk: &ToyMaster, tag: &str) -> (u64, ToyHeader) {
    let ids = recipients(tag).unwrap();
    toy_encrypt(rng, pk, &ids)
}

fn dec(sk: &Sk<ToyKey>, ct: &ToyHeader, tag: &str) -> Option<u64> {
    let found = opening(sk, tag)?;
    toy_decrypt(found.key, ct, &found.id, &found.ids)
}

/// A store whose slot `i` holds the key `1000 + i`.
fn plain_store() -> Sk<u64> {
    Sk::from_keys((0..M as u64).map(|i| 1000 + i).collect()).unwrap()
}

/// What every slot of the store holds.
fn contents(sk: &Sk<u64>) -> Vec<Option<u64>> {
    (0..M).map(|i| sk.get(i).cloned()).collect()
}

#[test]
fn test_bfenc() {
    let mut rng = thread_rng();
    let tag1 = "Hello";
    let tag2 = "World";

    let (pk, mut sk) = keypair(&mut rng);
    let (k, ct) = enc(&mut rng, &pk, tag1);
    let k2 = dec(&sk, &ct, tag1).unwrap();
    assert_eq!(k, k2);

    puncture(&mut sk, tag1);
    assert!(dec(&sk, &ct, tag1).is_none());

    let (k, ct) = enc(&mut rng, &pk, tag2);
    let k2 = dec(&sk, &ct, tag2).unwrap();
    assert_eq!(k, k2);
}

#[test]
fn round_trip_on_a_fresh_key() {
    let mut rng = thread_rng();
    let (pk, sk) = keypair(&mut rng);
    for n in 0..50 {
        let tag = format!("message {}", n);
        let (k, ct) = enc(&mut rng, &pk, &tag);
        assert_eq!(dec(&sk, &ct, &tag), Some(k));
    }
}

#[test]
fn a_ciphertext_does_not_open_under_another_tag() {
    let mut rng = thread_rng();
    let (pk, sk) = keypair(&mut rng);
    let (_, ct) = enc(&mut rng, &pk, "Hello");
    assert_eq!(dec(&sk, &ct, "World"), None);
}

#[test]
fn recipients_are_the_labels_of_the_sampled_slots() {
    assert_eq!(recipients("Hello").unwrap(), vec!["98", "99", "1"]);
    assert_eq!(recipients("World").unwrap(), vec!["83", "9", "50"]);
    assert_eq!(recipients("").unwrap(), vec!["52", "34", "40"]);
}

#[test]
fn opening_on_a_fresh_store_uses_the_first_slot() {
    let sk = plain_store();
    let found = opening(&sk, "Hello").unwrap();
    assert_eq!(*found.key, 1098);
    assert_eq!(found.id, "98");
    assert_eq!(found.ids, vec!["98", "99", "1"]);
    assert_eq!(Some(found.ids), recipients("Hello"));
}

#[test]
fn opening_falls_back_to_the_next_slot_that_is_left() {
    let mut sk = plain_store();
    sk.delete(&[98]);
    let found = opening(&sk, "Hello").unwrap();
    assert_eq!(*found.key, 1099);
    assert_eq!(found.id, "99");
    assert_eq!(found.ids, vec!["98", "99", "1"]);
    sk.delete(&[99]);
    let found = opening(&sk, "Hello").unwrap();
    assert_eq!(*found.key, 1001);
    assert_eq!(found.id, "1");
    assert_eq!(found.ids, vec!["98", "99", "1"]);
    sk.delete(&[1]);
    assert!(opening(&sk, "Hello").is_none());
}

#[test]
fn puncture_deletes_the_slots_of_the_tag_and_no_other() {
    let mut sk = plain_store();
    puncture(&mut sk, "Hello");
    for i in 0..M {
        if i == 98 || i == 99 || i == 1 {
            assert_eq!(sk.get(i), None);
        } else {
            assert_eq!(sk.get(i), Some(&(1000 + i as u64)));
        }
    }
}

#[test]
fn puncture_closes_the_tag() {
    let mut sk = plain_store();
    assert!(opening(&sk, "Hello").is_some());
    puncture(&mut sk, "Hello");
    assert!(opening(&sk, "Hello").is_none());
}

#[test]
fn puncture_leaves_disjoint_tags_alone() {
    // "Hello" selects 98, 99, 1 and "World" selects 83, 9, 50.
    let mut sk = plain_store();
    let before = opening(&sk, "World").unwrap();
    let (key, id, ids) = (*before.key, before.id, before.ids);
    puncture(&mut sk, "Hello");
    let after = opening(&sk, "World").unwrap();
    assert_eq!(*after.key, key);
    assert_eq!(after.id, id);
    assert_eq!(after.ids, ids);
    assert_eq!(*after.key, 1083);
}

#[test]
fn puncture_leaves_disjoint_tags_alone_with_the_stand_in() {
    let mut rng = thread_rng();
    let (pk, mut sk) = keypair(&mut rng);
    let (k, ct) = enc(&mut rng, &pk, "World");
    assert_eq!(dec(&sk, &ct, "World"), Some(k));
    puncture(&mut sk, "Hello");
    assert_eq!(dec(&sk, &ct, "World"), Some(k));
}

#[test]
fn puncture_of_an_overlapping_tag_moves_the_opening_on() {
    // "t199" selects 98, 117, 12 and shares slot 98 with "Hello".
    assert_eq!(sample("t199"), Some([98, 117, 12]));
    let mut rng = thread_rng();
    let (pk, mut sk) = keypair(&mut rng);
    let (k, ct) = enc(&mut rng, &pk, "Hello");
    puncture(&mut sk, "t199");
    let found = opening(&sk, "Hello").unwrap();
    assert_eq!(found.id, "99");
    assert_eq!(dec(&sk, &ct, "Hello"), Some(k));
    // "t2734" selects 99, 64, 98: only slot 1 is left for "Hello".
    puncture(&mut sk, "t2734");
    assert_eq!(opening(&sk, "Hello").unwrap().id, "1");
    assert_eq!(dec(&sk, &ct, "Hello"), Some(k));
    puncture(&mut sk, "Hello");
    assert_eq!(dec(&sk, &ct, "Hello"), None);
}

#[test]
fn puncture_twice_is_puncture_once() {
    let mut once = plain_store();
    puncture(&mut once, "Hello");
    let mut twice = plain_store();
    puncture(&mut twice, "Hello");
    puncture(&mut twice, "Hello");
    assert_eq!(contents(&once), contents(&twice));
    assert_eq!(contents(&once).iter().filter(|slot| slot.is_none()).count(), 3);
}

#[test]
fn punctured_slots_are_never_refilled() {
    let mut sk = plain_store();
    let mut gone: Vec<usize> = Vec::new();
    for tag in ["Hello", "World", "t199", "", "Hello"] {
        puncture(&mut sk, tag);
        gone.extend(sample(tag).unwrap());
        for i in 0..M {
            assert_eq!(sk.get(i).is_none(), gone.contains(&i));
        }
    }
}

#[test]
fn byte_tags_that_are_not_utf8_go_through_the_scheme() {
    // These three bytes select 23, 13, 87.
    let tag = [0xff, 0xfe, 0x00];
    assert_eq!(recipients_bytes(&tag).unwrap(), vec!["23", "13", "87"]);
    let mut sk = plain_store();
    let found = opening_bytes(&sk, &tag).unwrap();
    assert_eq!(*found.key, 1023);
    assert_eq!(found.id, "23");
    assert_eq!(found.ids, vec!["23", "13", "87"]);
    puncture_bytes(&mut sk, &tag);
    assert!(opening_bytes(&sk, &tag).is_none());
    for i in 0..M {
        assert_eq!(sk.get(i).is_none(), i == 23 || i == 13 || i == 87);
    }
}

#[test]
fn text_tags_are_their_utf8_bytes() {
    assert_eq!(recipients("Hello"), recipients_bytes(b"Hello"));
    let mut by_text = plain_store();
    let mut by_bytes = plain_store();
    puncture(&mut by_text, "World");
    puncture_bytes(&mut by_bytes, b"World");
    assert_eq!(contents(&by_text), contents(&by_bytes));
    assert!(opening(&by_bytes, "World").is_none());
    assert_eq!(opening_bytes(&by_text, b"Hello").unwrap().id, "98");
}
