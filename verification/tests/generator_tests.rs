use hyperid::HyperId;
use hyperid::Id;
use std::collections::HashMap;

#[test]
fn starts_from_zero() {
    let hyperid = HyperId::default();
    assert_eq!(hyperid.counter, 0);
}

#[test]
fn get_return_equal_id() {
    let hyperid = HyperId::default();
    assert_eq!(hyperid.get(), hyperid.get());
}

#[test]
fn generate_change_internal_state() {
    let mut hyperid = HyperId::default();

    let c = hyperid.counter;
    hyperid.generate();
    assert_ne!(hyperid.counter, c);
}

#[test]
fn generate_returns_different_id() {
    let mut hyperid = HyperId::default();

    let previous_id = hyperid.get();
    let next_id = hyperid.generate();
    assert_ne!(previous_id, next_id);
}

#[test]
fn on_255_generate_a_new_base() {
    let mut hyperid = HyperId::default();

    let base = hyperid.base;

    for _ in 0..255 {
        hyperid.generate();
    }
    let new_base = hyperid.base;
    assert_eq!(base, new_base);

    hyperid.generate();

    let new_base = hyperid.base;
    assert_ne!(base, new_base);
}

#[test]
fn different_instances_have_different_base() {
    let hyperid1 = HyperId::default();
    let hyperid2 = HyperId::default();
    assert_ne!(hyperid1.base, hyperid2.base);
}

#[test]
fn id_could_be_the_key_of_hashmap() {
    let hyperid = HyperId::default();

    let id = hyperid.get();

    let mut map = HashMap::new();
    map.insert(id, true);
}

#[test]
fn should_generate_always_different_ids() {
    let mut all_ids = vec![];
    let mut hyperid = HyperId::default();

    for _ in 0..1024 {
        let id = hyperid.generate();
        assert_eq!(false, all_ids.contains(&id));
        all_ids.push(id);
    }
}

#[test]
fn from_id_resumes_sequence() {
    let bytes: Vec<u8> = vec![0; 17];
    let id = Id::from_bytes(bytes).unwrap();
    let hyperid = HyperId::from_id(id);
    let id = hyperid.get();
    assert_eq!(vec![0u8; 17], id.into_bytes());
}

#[test]
fn wraparound_resets_counter_to_zero() {
    let mut hyperid = HyperId::default();
    for _ in 0..256 {
        hyperid.generate();
    }
    assert_eq!(hyperid.counter, 0);
}

#[test]
fn equal_ids_are_interchangeable_hash_keys() {
    let mut hyperid = HyperId::default();
    let id = hyperid.generate();
    let copy = Id::from_bytes(id.into_bytes()).unwrap();

    let mut map = HashMap::new();
    map.insert(id, 7u32);
    assert_eq!(map.get(&copy), Some(&7u32));
}
