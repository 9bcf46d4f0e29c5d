use wnfs::hamt::Hamt;
use wnfs::namefilter::Namefilter;
use wnfs::crypto::{ContentKey, Key};

fn key_of(first: u8, second: u8) -> [u8; 32] {
    let mut k = [0u8; 32];
    k[0] = first;
    k[1] = second;
    k
}

#[test]
fn hamt_set_get_remove_round_trip() {
    let t0: Hamt<u64> = Hamt::new();
    let k1 = key_of(0xAB, 1);
    let k2 = key_of(0xCD, 2);

    let t1 = t0.set(&k1, 10);
    let t2 = t1.set(&k2, 20);
    assert_eq!(t2.get(&k1), Some(&10));
    assert_eq!(t2.get(&k2), Some(&20));

    // The old root is untouched by later writes.
    assert_eq!(t0.get(&k1), None);
    assert_eq!(t1.get(&k2), None);

    let (t3, removed) = t2.remove(&k1);
    assert!(removed.is_some());
    assert_eq!(removed.unwrap().1, 10);
    assert_eq!(t3.get(&k1), None);
    // An unrelated key is unaffected by the removal.
    assert_eq!(t3.get(&k2), Some(&20));
}

#[test]
fn hamt_overwrite_replaces_value() {
    let t: Hamt<u64> = Hamt::new();
    let k = key_of(3, 4);
    let t = t.set(&k, 1).set(&k, 2);
    assert_eq!(t.get(&k), Some(&2));
}

#[test]
fn hamt_eight_colliding_keys_split_buckets() {
    // All eight keys share their first 4 bits (the first nibble is 0),
    // which forces the depth-0 bucket past its limit and splits it.
    let mut t: Hamt<u64> = Hamt::new();
    for j in 0..8u8 {
        t = t.set(&key_of(j, 0), 100 + j as u64);
    }
    for j in 0..8u8 {
        assert_eq!(t.get(&key_of(j, 0)), Some(&(100 + j as u64)));
    }
    let (t2, removed) = t.remove(&key_of(3, 0));
    assert_eq!(removed.unwrap().1, 103);
    assert_eq!(t2.get(&key_of(3, 0)), None);
    for j in 0..8u8 {
        if j != 3 {
            assert_eq!(t2.get(&key_of(j, 0)), Some(&(100 + j as u64)));
        }
    }
}

fn is_superset(sup: &Namefilter, sub: &Namefilter) -> bool {
    let a = sub.as_bytes();
    let b = sup.as_bytes();
    for i in 0..a.len() {
        if a[i] & b[i] != a[i] {
            return false;
        }
    }
    true
}

#[test]
fn namefilter_add_is_monotone() {
    let mut nf = Namefilter::new();
    let mut snapshots: Vec<Namefilter> = Vec::new();
    for id in [b"alpha".to_vec(), b"beta".to_vec(), b"gamma".to_vec(), b"alpha".to_vec()] {
        snapshots.push(Namefilter::from_bytes(nf.as_bytes().clone()));
        nf.add(&id);
        for earlier in &snapshots {
            assert!(is_superset(&nf, earlier));
        }
    }
}

#[test]
fn namefilter_saturate_is_superset_and_deterministic() {
    let mut nf = Namefilter::new();
    nf.add(&b"node".to_vec());
    let s1 = nf.saturate();
    let s2 = nf.saturate();
    assert!(is_superset(&s1, &nf));
    assert_eq!(s1.as_bytes(), s2.as_bytes());
    assert_eq!(nf.saturated_hash(), nf.saturated_hash());
}

#[test]
fn content_key_decrypt_inverts_encrypt() {
    let key = ContentKey::new(vec![9, 8, 7]);
    let data = vec![1, 2, 3, 4, 5];
    let ct = key.encrypt(&data).unwrap();
    assert_ne!(ct, data);
    let pt = key.decrypt(&ct).unwrap();
    assert_eq!(pt, data);
}
