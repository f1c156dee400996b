use prehash::layout::Layout;
use prehash::{hash, rcbox_layout_and_value_offset, PreHash, PreHashMap, Rc, WithHash};
use std::cell::Cell;

#[test]
fn stored_hash_is_hash_of_value() {
    let w = WithHash::new(String::from("some text"));
    let expected = hash(&String::from("some text"));
    assert_eq!(PreHash::precomputed_hash(&w), expected);
    assert_eq!(PreHash::precomputed_hash(&w), expected);
    assert_eq!(WithHash::precomputed_hash(&w), hash("some text"));
    let n = WithHash::new(42u64);
    assert_eq!(WithHash::precomputed_hash(&n), hash(&42u64));
    assert_eq!(*n.as_ref(), 42);
    assert_eq!(*n, 42);
    assert!(std::ptr::eq(&*n, n.as_ref()));
    assert!(std::ptr::eq(&*n, PreHash::hashed_value(&n)));
}

#[test]
fn hash_differs_between_values() {
    assert_ne!(hash(&1u64), hash(&2u64));
    assert_ne!(hash("a"), hash("b"));
    assert_eq!(hash("abc"), hash(&String::from("abc")));
}

#[test]
fn text_carrier_copies_text() {
    let w = WithHash::from_text("value # 3");
    assert_eq!(w.as_str(), "value # 3");
    assert_eq!(WithHash::precomputed_hash(&w), hash("value # 3"));
    let e = WithHash::from_text("");
    assert_eq!(e.len(), 0);
    assert_eq!(WithHash::precomputed_hash(&e), hash(""));
}

#[test]
fn slice_carrier_copies_elements() {
    let input: Vec<u32> = vec![5, 6, 7, 8];
    let w = WithHash::from_slice(&input[..]);
    assert_eq!(w.len(), 4);
    assert_eq!(&w[..], &input[..]);
    assert_eq!(WithHash::precomputed_hash(&w), hash(&input[..]));
    let empty: [u16; 0] = [];
    let e = WithHash::from_slice(&empty[..]);
    assert_eq!(e.len(), 0);
    assert_eq!(WithHash::precomputed_hash(&e), hash(&empty[..]));
}

#[test]
fn shared_pointer_from_bytes() {
    let p = Rc::from_slice(&[1u8, 2, 3][..]);
    assert_eq!(p.len(), 3);
    assert_eq!(&p[..], &[1u8, 2, 3][..]);
    assert_eq!(PreHash::precomputed_hash(&p), hash(&[1u8, 2, 3][..]));
    assert_eq!(PreHash::hashed_value(&p), &vec![1u8, 2, 3]);
}

#[test]
fn shared_pointer_shares_value() {
    let a = Rc::new(String::from("shared"));
    let b = a.clone();
    assert_eq!(a.as_ref(), "shared");
    assert_eq!(b.as_ref(), "shared");
    assert!(std::ptr::eq(a.as_ref(), b.as_ref()));
    assert!(std::ptr::eq(&*a, b.as_ref()));
    assert_eq!(&*b, "shared");
}

struct DropCounter<'a> {
    drops: &'a Cell<usize>,
}

impl Drop for DropCounter<'_> {
    fn drop(&mut self) {
        self.drops.set(self.drops.get() + 1);
    }
}

#[test]
fn clones_and_drops_balance() {
    let drops = Cell::new(0usize);
    let first = Rc::new(DropCounter { drops: &drops });
    let mut clones = Vec::new();
    for _ in 0..5 {
        clones.push(first.clone());
    }
    drop(first);
    assert_eq!(drops.get(), 0);
    while clones.len() > 1 {
        clones.pop();
        assert_eq!(drops.get(), 0);
    }
    clones.pop();
    assert_eq!(drops.get(), 1);
}

#[test]
fn map_finds_inserted_text_keys() {
    let mut map = PreHashMap::new();
    for i in 0..100 {
        assert_eq!(map.insert(WithHash::new(format!("value # {i}")), i), None);
    }
    assert_eq!(map.get(&WithHash::from_text("value # 12")), Some(&12));
    assert_eq!(map.get(&WithHash::from_text("missing")), None);
    let boxed: Box<WithHash<String>> = Box::new(WithHash::from_text("value # 99"));
    assert_eq!(map.get(&boxed), Some(&99));
}

#[test]
fn map_finds_each_distinct_key() {
    let mut map = PreHashMap::new();
    for i in 0u64..50 {
        assert_eq!(map.insert(WithHash::new(i * 3), i), None);
    }
    for i in 0u64..50 {
        let key = WithHash::new(i * 3);
        assert_eq!(map.get(&key), Some(&i));
        assert_eq!(map.get(&&key), Some(&i));
    }
    assert_eq!(map.get(&WithHash::new(1u64)), None);
    assert_eq!(map.get(&WithHash::new(1000u64)), None);
}

#[test]
fn map_insert_replaces_value() {
    let mut map = PreHashMap::new();
    assert_eq!(map.insert(WithHash::from_text("k"), 1), None);
    assert_eq!(map.insert(WithHash::from_text("other"), 5), None);
    assert_eq!(map.insert(WithHash::from_text("k"), 2), Some(1));
    assert_eq!(map.insert(WithHash::from_text("k"), 3), Some(2));
    assert_eq!(map.get(&WithHash::from_text("k")), Some(&3));
    assert_eq!(map.get(&WithHash::from_text("other")), Some(&5));
}

#[test]
fn map_with_shared_pointer_keys() {
    let mut map = PreHashMap::new();
    let key = Rc::from_slice(&[1u8, 2, 3][..]);
    assert_eq!(map.insert(key.clone(), "abc"), None);
    assert_eq!(map.get(&Rc::from_slice(&[1u8, 2, 3][..])), Some(&"abc"));
    assert_eq!(map.get(&WithHash::from_slice(&[1u8, 2, 3][..])), Some(&"abc"));
    assert_eq!(map.get(&Rc::from_slice(&[1u8, 2][..])), None);
    let std_rc = std::rc::Rc::new(WithHash::from_slice(&[1u8, 2, 3][..]));
    assert_eq!(map.get(&std_rc), Some(&"abc"));
    let arc = std::sync::Arc::new(WithHash::from_slice(&[1u8, 2, 3][..]));
    assert_eq!(map.get(&arc), Some(&"abc"));
}

/// A key whose hash is fixed, so that unequal keys collide.
struct Colliding(u32);

impl PreHash for Colliding {
    type Hashed = u32;

    fn stored_hash(_self_: &Self) -> u64 {
        7
    }

    fn hashed_view(self_: &Self) -> u32 {
        self_.0
    }

    fn precomputed_hash(_self_: &Self) -> u64 {
        7
    }

    fn hashed_value(self_: &Self) -> &u32 {
        &self_.0
    }
}

#[test]
fn map_tells_colliding_keys_apart() {
    let mut map = PreHashMap::new();
    for i in 0..10u32 {
        assert_eq!(map.insert(Colliding(i), i * 10), None);
    }
    for i in 0..10u32 {
        assert_eq!(map.get(&Colliding(i)), Some(&(i * 10)));
    }
    assert_eq!(map.get(&Colliding(11)), None);
    assert_eq!(map.insert(Colliding(4), 1), Some(40));
    assert_eq!(map.get(&Colliding(4)), Some(&1));
    assert_eq!(map.get(&Colliding(5)), Some(&50));
}

#[test]
fn layout_of_hash_and_slice() {
    let hash_size = std::mem::size_of::<u64>();
    let hash_align = std::mem::align_of::<u64>();
    assert_eq!(hash_size, 8);
    let (l, offset) = WithHash::<Vec<u8>>::slice_layout(3);
    assert_eq!(offset, 8);
    assert_eq!(l.align, hash_align);
    assert_eq!(l.size, if hash_align == 8 { 16 } else { 12 });
    let (l, offset) = WithHash::<Vec<u64>>::slice_layout(2);
    assert_eq!((l.size, offset), (24, 8));
    let (l, offset) = WithHash::<Vec<u16>>::slice_layout(0);
    assert_eq!((l.size, offset), (8, 8));
    let (l, offset) = WithHash::<Vec<u128>>::slice_layout(1);
    let a = std::mem::align_of::<u128>();
    assert_eq!(l.align, a);
    assert_eq!(offset, if a == 16 { 16 } else { 8 });
    assert_eq!(l.size, offset + 16);
}

#[test]
fn layout_overflow_is_detected() {
    assert!(Layout::array::<u64>(usize::MAX).is_none());
    assert!(Layout::array::<u32>(usize::MAX / 2).is_none());
    let header = Layout::of::<u64>();
    let bytes = Layout::array::<u8>(isize::MAX as usize).unwrap();
    assert!(header.extend(bytes).is_none());
    let (l, offset) = WithHash::<Vec<u8>>::slice_layout(isize::MAX as usize - 16);
    assert_eq!(offset, 8);
    assert_eq!(l.size, isize::MAX as usize - 7);
}

#[test]
fn layout_extend_and_pad() {
    let a = Layout { size: 1, align: 1 };
    let b = Layout { size: 4, align: 4 };
    let (l, offset) = a.extend(b).unwrap();
    assert_eq!((l.size, l.align, offset), (8, 4, 4));
    let c = Layout { size: 5, align: 4 };
    assert_eq!(c.pad_to_align(), Layout { size: 8, align: 4 });
    assert_eq!(b.pad_to_align(), b);
    assert_eq!(Layout::array::<u32>(3), Some(Layout { size: 12, align: 4 }));
    let big = Layout { size: isize::MAX as usize - 7, align: 8 };
    assert!(big.extend(Layout { size: 16, align: 1 }).is_none());
}

#[test]
fn layout_of_counted_block() {
    let word = std::mem::size_of::<usize>();
    let (l, offset) = rcbox_layout_and_value_offset(Layout { size: 3, align: 1 });
    assert_eq!(offset, word);
    assert_eq!(l.align, std::mem::align_of::<usize>());
    assert_eq!(l.size % l.align, 0);
    assert!(l.size >= word + 3);
    assert!(l.size < word + 3 + l.align);
    let (l, offset) = rcbox_layout_and_value_offset(Layout { size: 16, align: 16 });
    assert_eq!((l.size, l.align, offset), (32, 16, 16));
    let counted = Layout::of::<usize>();
    assert!(counted.extend(Layout { size: isize::MAX as usize - 7, align: 8 }).is_none());
}
