use templet::arena::{Arena, ArenaBox, ArenaError, ArenaVec};

#[test]
fn allocates_until_full() {
    let mut arena = Arena::new(8);
    assert_eq!(arena.alloc_bytes(5), Ok(0));
    assert_eq!(arena.alloc_bytes(3), Ok(5));
    assert_eq!(arena.alloc_bytes(1), Err(ArenaError::OutOfMemory));
}

#[test]
fn copies_text_into_the_pool() {
    let mut arena = Arena::new(16);
    let span = arena.alloc_str("héllo").unwrap();
    assert_eq!(span.start, 0);
    assert_eq!(span.len, 6);
    assert_eq!(arena.bytes(span), "héllo".as_bytes().to_vec());
    assert_eq!(arena.alloc_str("0123456789abcdef"), Err(ArenaError::OutOfMemory));
}

#[test]
fn grows_in_place_at_the_top_and_copies_otherwise() {
    let mut arena = Arena::new(32);
    let a = arena.alloc_str("ab").unwrap();
    assert_eq!(arena.realloc(a.start, 2, 4), Ok(0));
    let _b = arena.alloc_bytes(2).unwrap();
    let moved = arena.realloc(0, 4, 8).unwrap();
    assert_eq!(moved, 6);
    assert_eq!(&arena.pool()[6..8], b"ab");
}

#[test]
fn vector_doubles_and_keeps_order() {
    let mut arena = Arena::new(64);
    let mut v: ArenaVec<u32> = ArenaVec::new(&mut arena).unwrap();
    for i in 0..5u32 {
        v.push(&mut arena, i).unwrap();
    }
    assert_eq!(v.len(), 5);
    assert_eq!(v.as_slice(), &[0, 1, 2, 3, 4]);
    let mut it = v.iter();
    let mut seen = Vec::new();
    while let Some(x) = it.next() {
        seen.push(*x);
    }
    assert_eq!(seen, vec![0, 1, 2, 3, 4]);
    assert_eq!(v.pop(), Some(4));
    assert_eq!(v.len(), 4);
}

#[test]
fn vector_growth_fails_when_pool_is_full() {
    let mut arena = Arena::new(8);
    let mut v: ArenaVec<u32> = ArenaVec::new(&mut arena).unwrap();
    v.push(&mut arena, 1).unwrap();
    v.push(&mut arena, 2).unwrap();
    assert_eq!(v.push(&mut arena, 3), Err(ArenaError::OutOfMemory));
    assert_eq!(v.as_slice(), &[1, 2]);
}

#[test]
fn boxes_hold_values() {
    let mut arena = Arena::new(16);
    let mut b = ArenaBox::new(&mut arena, 7u64).unwrap();
    assert_eq!(*b.get(), 7);
    assert_eq!(b.replace(9), 7);
    assert_eq!(b.into_inner(), 9);
    let c = arena.alloc_typed(1u64).unwrap();
    assert_eq!(c.into_inner(), 1);
    assert!(arena.alloc_typed(2u8).is_err());
}

#[test]
fn reset_zeroes_and_frees_the_pool() {
    let mut arena = Arena::new(4);
    arena.alloc_str("abcd").unwrap();
    let mut arena = arena.reset();
    assert_eq!(arena.pool(), &[0, 0, 0, 0]);
    assert_eq!(arena.alloc_bytes(4), Ok(0));
}
