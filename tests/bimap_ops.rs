use bimap::{BiHashMap, BiMap, HashMap, MapBase, MapExt, MapKey, Ref};

fn s(text: &str) -> String {
    text.to_string()
}

#[test]
fn scenario_insert_lookup_remove() {
    let mut m: BiHashMap<u64, String> = BiMap::new();
    m.insert(1, s("a"));
    m.insert(2, s("b"));
    assert_eq!(m.get_right(&s("a")), Some(&1));
    assert_eq!(m.remove_left(&1), Some((1, s("a"))));
    assert!(!m.contains_right(&s("a")));
    assert_eq!(m.len(), 1);
    assert_eq!(m.get_left(&2), Some(&s("b")));
}

#[test]
fn new_is_empty() {
    let m: BiHashMap<u64, u64> = BiMap::new();
    assert!(m.is_empty());
    assert_eq!(m.len(), 0);
}

#[test]
fn bijection_holds_after_mixed_operations() {
    let mut m: BiHashMap<u32, char> = BiMap::new();
    m.insert(1, 'x');
    m.insert(2, 'y');
    m.insert(3, 'z');
    assert_eq!(m.remove_right(&'y'), Some((2, 'y')));
    m.insert(4, 'y');
    m.insert(1, 'w');
    let pairs = [(1u32, 'w'), (3, 'z'), (4, 'y')];
    for (l, r) in pairs.iter() {
        assert_eq!(m.get_left(l), Some(r));
        assert_eq!(m.get_right(r), Some(l));
    }
    assert_eq!(m.len(), 3);
    assert!(!m.contains_right(&'x'));
    assert!(!m.contains_left(&2));
}

#[test]
fn insert_overwriting_left_evicts_old_right() {
    let mut m: BiHashMap<u64, String> = BiMap::new();
    m.insert(1, s("old"));
    m.insert(1, s("new"));
    assert_eq!(m.get_left(&1), Some(&s("new")));
    assert!(!m.contains_right(&s("old")));
    assert_eq!(m.get_right(&s("old")), None);
    assert_eq!(m.len(), 1);
}

#[test]
fn insert_overwriting_right_evicts_old_left() {
    let mut m: BiHashMap<u64, String> = BiMap::new();
    m.insert(1, s("a"));
    m.insert(2, s("a"));
    assert_eq!(m.get_right(&s("a")), Some(&2));
    assert!(!m.contains_left(&1));
    assert_eq!(m.len(), 1);
}

#[test]
fn insert_joining_two_pairs_evicts_both() {
    let mut m: BiHashMap<u64, u64> = BiMap::new();
    m.insert(1, 10);
    m.insert(2, 20);
    m.insert(1, 20);
    assert_eq!(m.len(), 1);
    assert_eq!(m.get_left(&1), Some(&20));
    assert_eq!(m.get_right(&20), Some(&1));
    assert!(!m.contains_left(&2));
    assert!(!m.contains_right(&10));
}

#[test]
fn insert_same_pair_twice_keeps_one() {
    let mut m: BiHashMap<u64, u64> = BiMap::new();
    m.insert(5, 50);
    m.insert(5, 50);
    assert_eq!(m.len(), 1);
    assert_eq!(m.get_left(&5), Some(&50));
}

#[test]
fn round_trip_leaves_empty() {
    let mut m: BiHashMap<String, u64> = BiMap::new();
    m.insert(s("key"), 7);
    assert_eq!(m.remove_left(&s("key")), Some((s("key"), 7)));
    assert!(m.is_empty());
    assert_eq!(m.len(), 0);
    assert_eq!(m.get_right(&7), None);
}

#[test]
fn remove_left_and_right_agree() {
    let mut a: BiHashMap<u64, String> = BiMap::new();
    let mut b: BiHashMap<u64, String> = BiMap::new();
    for m in [&mut a, &mut b] {
        m.insert(1, s("one"));
        m.insert(2, s("two"));
    }
    let from_left = a.remove_left(&2);
    let from_right = b.remove_right(&s("two"));
    assert_eq!(from_left, Some((2, s("two"))));
    assert_eq!(from_left, from_right);
    assert_eq!(a.len(), b.len());
    assert_eq!(a.get_left(&1), b.get_left(&1));
    assert_eq!(a.get_right(&s("one")), b.get_right(&s("one")));
}

#[test]
fn absent_keys_report_absence() {
    let mut m: BiHashMap<u64, String> = BiMap::new();
    assert_eq!(m.get_left(&9), None);
    assert!(!m.contains_left(&9));
    assert_eq!(m.remove_left(&9), None);
    assert_eq!(m.remove_right(&s("nine")), None);
    m.insert(1, s("a"));
    assert_eq!(m.get_left(&9), None);
    assert!(!m.contains_left(&9));
    assert_eq!(m.remove_left(&9), None);
    assert_eq!(m.get_right(&s("b")), None);
    assert!(!m.contains_right(&s("b")));
    assert_eq!(m.len(), 1);
}

#[test]
fn many_pairs() {
    let mut m: BiHashMap<u64, u64> = BiMap::new();
    let mut i: u64 = 0;
    while i < 100 {
        m.insert(i, 1000 + i);
        i += 1;
    }
    assert_eq!(m.len(), 100);
    assert_eq!(m.get_left(&42), Some(&1042));
    assert_eq!(m.get_right(&1099), Some(&99));
    assert_eq!(m.remove_right(&1000), Some((0, 1000)));
    assert_eq!(m.len(), 99);
}

#[test]
fn backing_map_insert_overwrites() {
    let mut m: HashMap<u64, String> = HashMap::new();
    assert!(m.is_empty());
    m.insert(Ref::new(1), Ref::new(s("a")));
    m.insert(Ref::new(1), Ref::new(s("b")));
    assert_eq!(m.len(), 1);
    assert_eq!(m.get(&1).map(|v| v.get().clone()), Some(s("b")));
    assert!(m.contains(&1));
    assert!(!m.contains(&2));
}

#[test]
fn backing_map_remove_returns_both_handles() {
    let mut m: HashMap<String, u64> = HashMap::new();
    m.insert(Ref::new(s("x")), Ref::new(1));
    m.insert(Ref::new(s("y")), Ref::new(2));
    let (k, v) = m.remove(&s("x")).unwrap();
    assert_eq!(k.get(), &s("x"));
    assert_eq!(*v.get(), 1);
    assert!(m.remove(&s("x")).is_none());
    assert_eq!(m.len(), 1);
    assert_eq!(m.get(&s("y")).map(|v| *v.get()), Some(2));
}

#[test]
fn ref_share_and_join() {
    let a = Ref::new(s("shared"));
    let b = a.share();
    assert_eq!(b.get(), &s("shared"));
    assert_eq!(Ref::join(a, b), s("shared"));
}

#[test]
fn key_comparison() {
    assert!(s("ab").key_eq(&s("ab")));
    assert!(!s("ab").key_eq(&s("ba")));
    assert!(3u8.key_eq(&3));
    assert!(!'a'.key_eq(&'b'));
    assert_eq!(s("z").duplicate(), s("z"));
}

#[test]
fn iter_lists_every_pair_once() {
    let mut m: BiHashMap<u64, char> = BiMap::new();
    assert!(m.iter().is_empty());
    m.insert(1, 'a');
    m.insert(2, 'b');
    m.insert(3, 'c');
    m.insert(2, 'd');
    let mut pairs: Vec<(u64, char)> = m.iter().into_iter().map(|(l, r)| (*l, *r)).collect();
    pairs.sort();
    assert_eq!(pairs, vec![(1, 'a'), (2, 'd'), (3, 'c')]);
}

#[test]
fn backing_map_iter_hands_out_each_entry() {
    let mut m: HashMap<u64, u64> = HashMap::new();
    m.insert(Ref::new(4), Ref::new(40));
    m.insert(Ref::new(5), Ref::new(50));
    m.insert(Ref::new(4), Ref::new(41));
    let mut pairs: Vec<(u64, u64)> = m.iter().into_iter().map(|(k, v)| (*k.get(), *v.get())).collect();
    pairs.sort();
    assert_eq!(pairs, vec![(4, 41), (5, 50)]);
}
