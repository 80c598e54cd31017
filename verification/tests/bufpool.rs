use loona::bufpool::{Buf, BufMut, BufPool, Error};
use std::rc::Rc;

#[test]
fn size_test() {
    let _pool = BufPool::initialize_allocator().unwrap();

    assert_eq!(8, std::mem::size_of::<BufMut>());
    assert_eq!(8, std::mem::size_of::<Buf>());
    assert_eq!(16, std::mem::size_of::<Box<[u8]>>());

    assert_eq!(16, std::mem::size_of::<&[u8]>());

    #[allow(dead_code)]
    enum BufOrBox {
        Buf(Buf),
        Box((Rc<Box<[u8]>>, u32, u32)),
    }
    assert_eq!(16, std::mem::size_of::<BufOrBox>());

    #[allow(dead_code)]
    enum Chunk {
        Buf(Buf),
        Box(Box<[u8]>),
        Static(&'static [u8]),
    }
    assert_eq!(24, std::mem::size_of::<Chunk>());
}

#[test]
fn freeze_test() {
    let mut pool = BufPool::initialize_allocator().unwrap();

    let total_bufs = pool.num_free();
    let bm = BufMut::allocate(&mut pool).unwrap();

    assert_eq!(total_bufs - 1, pool.num_free());
    assert_eq!(bm.len(), 4096);

    pool.write(&bm, 0, b"hello world");
    assert_eq!(&pool.buf_mut_bytes(&bm)[..11], b"hello world");

    let b = bm.freeze();
    assert_eq!(&pool.buf_bytes(&b)[..11], b"hello world");
    assert_eq!(total_bufs - 1, pool.num_free());

    let b2 = b.clone_in(&mut pool);
    assert_eq!(&pool.buf_bytes(&b)[..11], b"hello world");
    assert_eq!(total_bufs - 1, pool.num_free());

    pool.release_buf(b);
    assert_eq!(total_bufs - 1, pool.num_free());

    pool.release_buf(b2);
    assert_eq!(total_bufs, pool.num_free());
}

#[test]
fn split_test() {
    let mut pool = BufPool::initialize_allocator().unwrap();

    let total_bufs = pool.num_free();
    let bm = BufMut::allocate(&mut pool).unwrap();

    pool.write(&bm, 0, b"yellowjacket");
    let (a, b) = bm.split_at(&mut pool, 6);

    assert_eq!(total_bufs - 1, pool.num_free());
    assert_eq!(pool.buf_mut_bytes(&a), b"yellow");
    assert_eq!(&pool.buf_mut_bytes(&b)[..6], b"jacket");

    pool.release_buf_mut(a);
    pool.release_buf_mut(b);
    assert_eq!(total_bufs, pool.num_free());
}

#[test]
fn pool_out_of_memory() {
    let mut pool = BufPool::initialize_allocator_with_num_bufs(2).unwrap();
    assert_eq!(pool.num_free(), 2);
    let a = BufMut::allocate(&mut pool).unwrap();
    let b = BufMut::allocate(&mut pool).unwrap();
    assert_eq!(a.index, 0);
    assert_eq!(b.index, 1);
    assert!(matches!(BufMut::allocate(&mut pool), Err(Error::OutOfMemory)));
    pool.release_buf_mut(a);
    assert_eq!(pool.num_free(), 1);
    // the freed slot is handed out again
    let c = BufMut::allocate(&mut pool).unwrap();
    assert_eq!(c.index, 0);
    pool.release_buf_mut(b);
    pool.release_buf_mut(c);
    assert_eq!(pool.num_free(), 2);
}

#[test]
fn pool_slice_and_skip() {
    let mut pool = BufPool::initialize_allocator_with_num_bufs(1).unwrap();
    let mut bm = BufMut::allocate(&mut pool).unwrap();
    pool.write(&bm, 0, b"abcdef");
    bm.skip(2);
    assert_eq!(bm.off, 2);
    assert_eq!(bm.len(), 4094);
    assert_eq!(&pool.buf_mut_bytes(&bm)[..4], b"cdef");
    let b = bm.freeze().slice(1, 3);
    assert_eq!(pool.buf_bytes(&b), b"de");
    assert!(!b.is_empty());
    let (l, r) = b.split_at(&mut pool, 1);
    assert_eq!(pool.buf_bytes(&l), b"d");
    assert_eq!(pool.buf_bytes(&r), b"e");
    pool.release_buf(l);
    assert_eq!(pool.num_free(), 0);
    pool.release_buf(r);
    assert_eq!(pool.num_free(), 1);
}
