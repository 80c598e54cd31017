use loona::bufpool::BufPool;
use loona::piece::{Piece, PieceCore, PieceList, WriteZero};
use loona::roll::RollMut;
use std::rc::Rc;

fn full(core: PieceCore) -> Piece {
    Piece::Full { core }
}

#[test]
fn test_slice() {
    let mut pool = BufPool::initialize_allocator().unwrap();
    // test that slicing works correctly for a
    // piece made from a &'static u8
    let piece = full(PieceCore::Static("französisch".as_bytes()));
    // split so that "l" is "franz"
    let (first_name, last_name) = piece.split_at(&mut pool, 5);
    assert_eq!(first_name.bytes(&pool), "franz".as_bytes());
    assert_eq!(last_name.bytes(&pool), "ösisch".as_bytes());

    // test edge cases, zero-length left
    let piece = full(PieceCore::Static("französisch".as_bytes()));
    let (first_name, last_name) = piece.split_at(&mut pool, 0);
    assert_eq!(first_name.bytes(&pool), "".as_bytes());
    assert_eq!(last_name.bytes(&pool), "französisch".as_bytes());

    // test edge cases, zero-length right
    let piece = full(PieceCore::Static("französisch".as_bytes()));
    let (first_name, last_name) = piece.split_at(&mut pool, 12);
    assert_eq!(first_name.bytes(&pool), "französisch".as_bytes());
    assert_eq!(last_name.bytes(&pool), "".as_bytes());

    // edge case: empty piece being split into two
    let piece = full(PieceCore::Static(b""));
    let (first_name, last_name) = piece.split_at(&mut pool, 0);
    assert_eq!(first_name.bytes(&pool), "".as_bytes());
    assert_eq!(last_name.bytes(&pool), "".as_bytes());
}

#[test]
fn split_pieces_of_rolls_and_vecs() {
    let mut pool = BufPool::initialize_allocator().unwrap();
    let mut rm = RollMut::allocate(&mut pool).unwrap();
    rm.put(&mut pool, b"hello world").unwrap();
    let roll = rm.take_all(&mut pool);
    let piece = full(PieceCore::Roll(roll));
    let (a, b) = piece.split_at(&mut pool, 5);
    let (b1, b2) = b.split_at(&mut pool, 1);
    assert_eq!(a.bytes(&pool), b"hello");
    assert_eq!(b1.bytes(&pool), b" ");
    assert_eq!(b2.bytes(&pool), b"world");

    let piece = full(PieceCore::Vec(Rc::new(b"abcdef".to_vec())));
    assert_eq!(piece.len(), 6);
    let (a, b) = piece.split_at(&mut pool, 2);
    assert_eq!(a.bytes(&pool), b"ab");
    assert_eq!(b.bytes(&pool), b"cdef");
    assert!(Piece::empty().is_empty());
}

#[test]
fn piece_lists() {
    let list = PieceList::single(full(PieceCore::Static(b"abc")))
        .followed_by(full(PieceCore::Static(b"de")))
        .preceded_by(full(PieceCore::Static(b"")));
    assert_eq!(list.num_pieces(), 3);
    assert_eq!(list.len(), 5);
    assert!(!list.is_empty());
    let mut list = list;
    list.clear();
    assert!(list.is_empty());
    assert_eq!(PieceList::new().into_vec_deque().len(), 0);
}

fn list_bytes(list: &PieceList, pool: &BufPool) -> Vec<u8> {
    let mut out = Vec::new();
    for p in list.pieces.iter() {
        out.extend_from_slice(p.bytes(pool));
    }
    out
}

#[test]
fn advance_after_partial_writes() {
    let pool = BufPool::initialize_allocator().unwrap();
    let mut list = PieceList::new();
    list.push_back(full(PieceCore::Static(b"abc")));
    list.push_back(full(PieceCore::Vec(Rc::new(b"defg".to_vec()))));
    list.push_back(full(PieceCore::Static(b"")));
    list.push_back(full(PieceCore::Static(b"hi")));
    let all = list_bytes(&list, &pool);

    list.advance(0);
    assert_eq!(list.num_pieces(), 4);
    list.advance(5);
    assert_eq!(list_bytes(&list, &pool), all[5..].to_vec());
    assert_eq!(list.num_pieces(), 3);
    list.advance(2);
    // "fg" written whole; the empty piece after it stays until more is written
    assert_eq!(list.num_pieces(), 2);
    assert_eq!(list_bytes(&list, &pool), b"hi".to_vec());
    list.advance(2);
    assert_eq!(list.num_pieces(), 0);
}

#[test]
fn writes_until_nothing_is_left() {
    let pool = BufPool::initialize_allocator().unwrap();
    let mut list = PieceList::new();
    list.push_back(full(PieceCore::Static(b"abc")));
    list.push_back(full(PieceCore::Static(b"de")));
    assert_eq!(list.after_write(0), Err(WriteZero));
    assert_eq!(list.num_pieces(), 2);
    assert_eq!(list.after_write(4), Ok(false));
    assert_eq!(list_bytes(&list, &pool), b"e".to_vec());
    assert_eq!(list.after_write(1), Ok(true));
}
