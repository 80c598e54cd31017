use loona::bufpool::{BufPool, Error, BUF_SIZE};
use loona::frame::{parse_tag, ParseError};
use loona::chan::ChanReadGuarded;
use loona::roll::{lowercase_byte, CompareResult, DoesNotFit, ReadInto, Roll, RollMut};

fn pool() -> BufPool {
    BufPool::initialize_allocator().unwrap()
}

#[test]
fn test_roll_put() {
    fn test_roll_put_inner(pool: &mut BufPool, mut rm: RollMut) {
        let initial_size = rm.cap(pool);

        rm.put(pool, b"hello").unwrap();
        assert_eq!(rm.cap(pool), initial_size - 5);

        let filled = rm.filled(pool);
        assert_eq!(filled.bytes(pool), b"hello");

        rm.skip(5);
        assert_eq!(rm.len(), 0);
        assert_eq!(rm.cap(pool), initial_size - 5);
    }

    let mut pool = pool();
    let rm = RollMut::allocate(&mut pool).unwrap();
    assert_eq!(rm.cap(&pool), BUF_SIZE as usize);
    test_roll_put_inner(&mut pool, rm);

    let mut rm = RollMut::allocate(&mut pool).unwrap();
    rm.grow(&mut pool);
    test_roll_put_inner(&mut pool, rm);

    let mut rm = RollMut::allocate(&mut pool).unwrap();
    rm.grow(&mut pool);
    rm.grow(&mut pool);
    test_roll_put_inner(&mut pool, rm);
}

#[test]
fn test_roll_put_does_not_fit() {
    let mut pool = pool();
    let mut rm = RollMut::allocate(&mut pool).unwrap();
    let spaces = " ".repeat(rm.cap(&pool));
    rm.put(&mut pool, spaces.as_bytes()).unwrap();

    let err = rm.put(&mut pool, b"drop").unwrap_err();
    assert!(err.message().contains("does not fit"));
    assert_eq!(err, DoesNotFit);
}

#[test]
fn test_roll_realloc() {
    fn test_roll_realloc_inner(pool: &mut BufPool, mut rm: RollMut) {
        let init_cap = rm.cap(pool);
        rm.put(pool, b"hello").unwrap();
        rm.take_all(pool);
        assert_eq!(rm.cap(pool), init_cap - 5);

        rm.realloc(pool).unwrap();
        assert_eq!(rm.cap(pool), BUF_SIZE as usize);
    }

    let mut pool = pool();
    let rm = RollMut::allocate(&mut pool).unwrap();
    test_roll_realloc_inner(&mut pool, rm);

    let mut rm = RollMut::allocate(&mut pool).unwrap();
    rm.grow(&mut pool);
    test_roll_realloc_inner(&mut pool, rm);
}

#[test]
fn test_roll_realloc_big() {
    let mut pool = pool();
    let mut rm = RollMut::allocate(&mut pool).unwrap();
    rm.grow(&mut pool);

    let put = "x".repeat(rm.cap(&pool) * 2 / 3);
    rm.put(&mut pool, put.as_bytes()).unwrap();
    rm.realloc(&mut pool).unwrap();

    assert_eq!(rm.storage_size(&pool), BUF_SIZE as usize * 2);
    assert_eq!(rm.len(), put.len());
    assert_eq!(rm.bytes(&pool), put.as_bytes());
}

#[test]
fn test_roll_reserve() {
    let mut pool = pool();
    let mut rm = RollMut::allocate(&mut pool).unwrap();
    assert_eq!(rm.cap(&pool), BUF_SIZE as usize);
    assert_eq!(rm.len(), 0);
    rm.reserve(&mut pool).unwrap();
    assert_eq!(rm.cap(&pool), BUF_SIZE as usize);
    assert_eq!(rm.len(), 0);

    rm.put(&mut pool, b"hello").unwrap();
    rm.take_all(&mut pool);

    assert_eq!(rm.cap(&pool), BUF_SIZE as usize - 5);
    assert_eq!(rm.len(), 0);
    rm.reserve(&mut pool).unwrap();
    assert_eq!(rm.cap(&pool), BUF_SIZE as usize - 5);
    assert_eq!(rm.len(), 0);

    let old_cap = rm.cap(&pool);
    rm.put(&mut pool, &b" ".repeat(old_cap)).unwrap();
    assert_eq!(rm.cap(&pool), 0);
    assert_eq!(rm.len(), old_cap);

    rm.reserve(&mut pool).unwrap();
    assert_eq!(rm.cap(&pool), 5);
    assert_eq!(rm.len(), old_cap);

    rm.put(&mut pool, b"hello").unwrap();
    rm.reserve(&mut pool).unwrap();
    assert_eq!(rm.cap(&pool), BUF_SIZE as usize);
    assert_eq!(rm.len(), BUF_SIZE as usize);
}

#[test]
fn test_roll_put_then_grow() {
    let mut pool = pool();
    let mut rm = RollMut::allocate(&mut pool).unwrap();
    assert_eq!(rm.cap(&pool), BUF_SIZE as usize);

    let input = b"I am pretty long";

    rm.put(&mut pool, input).unwrap();
    assert_eq!(rm.len(), input.len());
    assert_eq!(rm.bytes(&pool), input);

    assert_eq!(rm.cap(&pool), BUF_SIZE as usize - input.len());

    rm.grow(&mut pool);
    assert_eq!(rm.cap(&pool), 2 * (BUF_SIZE as usize) - input.len());
    assert_eq!(rm.bytes(&pool), input);

    rm.skip(5);
    assert_eq!(rm.bytes(&pool), b"pretty long");
}

#[test]
fn test_roll_keep() {
    fn test_roll_keep_inner(pool: &mut BufPool, mut rm: RollMut) {
        rm.put(pool, b"helloworld").unwrap();
        assert_eq!(rm.bytes(pool), b"helloworld");

        {
            let roll = rm.filled(pool).slice(3, 6);
            assert_eq!(roll.bytes(pool), b"low");
            roll.release(pool);
        }

        {
            let roll = rm.filled(pool).slice(0, 5);
            assert_eq!(roll.bytes(pool), b"hello");
            roll.release(pool);
        }

        let filled = rm.filled(pool);
        let len = filled.len();
        let roll = filled.slice(5, len);
        assert_eq!(roll.bytes(pool), b"world");

        rm.keep(pool, roll);
        assert_eq!(rm.bytes(pool), b"world");
    }

    let mut pool = pool();
    let rm = RollMut::allocate(&mut pool).unwrap();
    test_roll_keep_inner(&mut pool, rm);

    let mut rm = RollMut::allocate(&mut pool).unwrap();
    rm.grow(&mut pool);
    test_roll_keep_inner(&mut pool, rm);
}

#[test]
fn test_roll_iter() {
    let mut pool = pool();
    let mut rm = RollMut::allocate(&mut pool).unwrap();
    rm.put(&mut pool, b"hello").unwrap();
    let roll = rm.filled(&mut pool);
    let mut it = roll.iter(&mut pool);
    let mut v = Vec::new();
    while let Some(c) = it.next(&pool) {
        v.push(c);
    }
    assert_eq!(v, b"hello");

    assert_eq!(roll.to_string_lossy(&pool), "hello");
}

#[test]
fn test_roll_take_at_most() {
    let mut pool = pool();
    let mut rm = RollMut::allocate(&mut pool).unwrap();
    rm.put(&mut pool, b"hello").unwrap();
    let roll = rm.take_at_most(&mut pool, 4).unwrap();
    assert_eq!(roll.bytes(&pool), b"hell");

    let mut rm = RollMut::allocate(&mut pool).unwrap();
    rm.put(&mut pool, b"hello").unwrap();
    let roll = rm.take_at_most(&mut pool, 12).unwrap();
    assert_eq!(roll.bytes(&pool), b"hello");

    let mut rm = RollMut::allocate(&mut pool).unwrap();
    assert!(rm.take_at_most(&mut pool, 12).is_none());
}

#[test]
fn test_roll_take_all() {
    let mut pool = pool();
    let mut rm = RollMut::allocate(&mut pool).unwrap();
    rm.put(&mut pool, b"hello").unwrap();
    let roll = rm.take_all(&mut pool);
    assert_eq!(roll.bytes(&pool), b"hello");
}

#[test]
fn test_roll_nom_sample() {
    let mut pool = pool();
    let tag = b"HTTP/1.1 200 OK";
    let mut buf = RollMut::allocate(&mut pool).unwrap();

    let input = b"HTTP/1.1 200 OK".repeat(1000);
    let mut pending = &input[..];
    let mut parsed = 0;

    loop {
        if buf.cap(&pool) == 0 {
            buf.grow(&mut pool);
        }

        let filled = buf.filled(&mut pool);
        match parse_tag(tag, filled.bytes(&pool)) {
            Ok((n, ())) => {
                assert_eq!(&filled.bytes(&pool)[..n], b"HTTP/1.1 200 OK");
                let len = filled.len();
                let rest = filled.slice(n, len);
                buf.keep(&mut pool, rest);
                parsed += 1;
            }
            Err(ParseError::Incomplete(_)) => {
                filled.release(&mut pool);
                if pending.is_empty() {
                    println!("ran out of input");
                    break;
                }
                let n = std::cmp::min(buf.cap(&pool), pending.len());
                buf.put(&mut pool, &pending[..n]).unwrap();
                pending = &pending[n..];
            }
            Err(e) => panic!("parsing error: {e:?}"),
        }
    }
    assert_eq!(parsed, 1000);
}

#[test]
fn test_roll_io_write() {
    let mut pool = pool();
    let mut rm = RollMut::allocate(&mut pool).unwrap();
    assert_eq!(rm.write(&mut pool, b"hello").unwrap(), 5);

    let roll = rm.take_all(&mut pool);
    assert_eq!(std::str::from_utf8(roll.bytes(&pool)).unwrap(), "hello");
}

#[test]
fn roll_write_reserves_when_full() {
    let mut pool = pool();
    let mut rm = RollMut::allocate(&mut pool).unwrap();
    let full = vec![b'a'; BUF_SIZE as usize];
    assert_eq!(rm.write(&mut pool, &full).unwrap(), BUF_SIZE as usize);
    assert_eq!(rm.cap(&pool), 0);
    assert_eq!(rm.write(&mut pool, b"b").unwrap(), 1);
    assert_eq!(rm.storage_size(&pool), 2 * BUF_SIZE as usize);
    assert_eq!(rm.len(), BUF_SIZE as usize + 1);
}

#[test]
fn roll_put_to_roll_and_reserve_at_least() {
    let mut pool = pool();
    let mut rm = RollMut::allocate(&mut pool).unwrap();
    let big = vec![7u8; 10_000];
    let roll = rm.put_to_roll(&mut pool, &big).unwrap();
    assert_eq!(roll.bytes(&pool), &big[..]);
    assert_eq!(rm.len(), 0);
    assert!(rm.storage_size(&pool) >= 10_000);

    let mut rm2 = RollMut::allocate(&mut pool).unwrap();
    rm2.reserve_at_least(&mut pool, 3).unwrap();
    assert_eq!(rm2.cap(&pool), BUF_SIZE as usize);
    rm2.reserve_at_least(&mut pool, 20_000).unwrap();
    assert_eq!(rm2.storage_size(&pool), 8 * BUF_SIZE as usize);
}

#[test]
fn roll_pool_references() {
    let mut pool = BufPool::initialize_allocator_with_num_bufs(2).unwrap();
    let mut rm = RollMut::allocate(&mut pool).unwrap();
    assert_eq!(pool.num_free(), 1);
    rm.put(&mut pool, b"abc").unwrap();
    let roll = rm.take_all(&mut pool);
    // the roll keeps the buffer alive after the RollMut moves on
    rm.grow(&mut pool);
    assert_eq!(pool.num_free(), 1);
    assert_eq!(roll.bytes(&pool), b"abc");
    roll.release(&mut pool);
    assert_eq!(pool.num_free(), 2);
    // a full pool makes realloc fail and leaves the buffer as it was
    let _a = RollMut::allocate(&mut pool).unwrap();
    let _b = RollMut::allocate(&mut pool).unwrap();
    rm.put(&mut pool, b"xyz").unwrap();
    assert!(matches!(rm.realloc(&mut pool), Err(Error::OutOfMemory)));
    assert_eq!(rm.bytes(&pool), b"xyz");
}

#[test]
fn roll_split_compare_find() {
    let mut pool = pool();
    let mut rm = RollMut::allocate(&mut pool).unwrap();
    rm.put(&mut pool, b"GET /index HTTP/1.1\r\n\r\n").unwrap();
    let roll = rm.take_all(&mut pool);
    assert_eq!(roll.find_substring(&pool, b"\r\n\r\n"), Some(19));
    assert_eq!(roll.find_substring(&pool, b"HTTP"), Some(11));
    assert_eq!(roll.find_substring(&pool, b"/"), Some(4));
    assert_eq!(roll.find_substring(&pool, b""), Some(0));
    assert_eq!(roll.find_substring(&pool, b"POST"), None);
    assert_eq!(roll.compare(&pool, b"GET"), CompareResult::Matches);
    assert_eq!(roll.compare(&pool, b"PUT"), CompareResult::Error);
    assert_eq!(roll.compare_no_case(&pool, b"get /INDEX"), CompareResult::Matches);
    assert_eq!(lowercase_byte(b'Q'), b'q');
    assert_eq!(lowercase_byte(b'['), b'[');
    assert_eq!(roll.slice_index(3), Ok(3));
    assert_eq!(roll.slice_index(30), Err(7));
    let (a, b) = roll.split_at(&mut pool, 3);
    assert_eq!(a.bytes(&pool), b"GET");
    assert_eq!(b.len(), 20);
    assert_eq!(b.compare(&pool, b" /index HTTP/1.1\r\n\r\nmore"), CompareResult::Incomplete);
    let s = a.to_string(&mut pool).ok().unwrap();
    assert_eq!(s.as_str(&pool), "GET");
    let e = Roll::empty();
    assert!(e.is_empty());
    assert_eq!(e.bytes(&pool), b"");
}

#[test]
fn roll_invalid_utf8() {
    let mut pool = pool();
    let mut rm = RollMut::allocate(&mut pool).unwrap();
    rm.put(&mut pool, &[0x66, 0xff, 0x6f]).unwrap();
    let roll = rm.take_all(&mut pool);
    assert_eq!(roll.to_string_lossy(&pool), "f\u{fffd}o");
    assert!(roll.to_string(&mut pool).is_err());
}

#[test]
fn test_roll_readfrom_start() {
    let mut pool = pool();
    let mut rm = RollMut::allocate(&mut pool).unwrap();

    let mut read = ChanReadGuarded::new();
    assert!(read.try_send(b"123456".to_vec()).is_ok());

    assert_eq!(rm.read_into(&mut pool, 3, &mut read), ReadInto::Read(3));
    assert_eq!(rm.len(), 3);
    assert_eq!(rm.bytes(&pool), b"123");

    assert_eq!(rm.read_into(&mut pool, 3, &mut read), ReadInto::Read(3));
    assert_eq!(rm.len(), 6);
    assert_eq!(rm.bytes(&pool), b"123456");
}

#[test]
fn read_into_waits_ends_and_resets() {
    let mut pool = pool();
    let mut rm = RollMut::allocate(&mut pool).unwrap();
    let mut read = ChanReadGuarded::new();
    assert_eq!(rm.read_into(&mut pool, 8, &mut read), ReadInto::Wait);
    assert!(read.try_send(b"ab".to_vec()).is_ok());
    read.close_sender();
    assert_eq!(rm.read_into(&mut pool, 8, &mut read), ReadInto::Read(2));
    assert_eq!(rm.read_into(&mut pool, 8, &mut read), ReadInto::Read(0));
    assert_eq!(rm.bytes(&pool), b"ab");
    let mut read = ChanReadGuarded::new();
    read.reset();
    assert_eq!(rm.read_into(&mut pool, 8, &mut read), ReadInto::Reset);
}

#[test]
fn reserve_leaves_a_buffer_with_room_alone() {
    let mut pool = pool();
    let mut rm = RollMut::allocate(&mut pool).unwrap();
    rm.put(&mut pool, &[b'x'; 3000]).unwrap();
    rm.reserve(&mut pool).unwrap();
    assert_eq!(rm.cap(&pool), BUF_SIZE as usize - 3000);
    assert_eq!(rm.len(), 3000);
    assert_eq!(rm.storage_size(&pool), BUF_SIZE as usize);
}

#[test]
fn reserve_at_least_grows_when_a_realloc_is_not_enough() {
    let mut pool = pool();
    let mut rm = RollMut::allocate(&mut pool).unwrap();
    rm.put(&mut pool, b"a").unwrap();
    rm.reserve_at_least(&mut pool, 4096).unwrap();
    assert!(rm.cap(&pool) >= 4096);
    assert_eq!(rm.bytes(&pool), b"a");
    // a consumed prefix is reclaimed first
    let mut rm = RollMut::allocate(&mut pool).unwrap();
    rm.put(&mut pool, &[b'y'; 100]).unwrap();
    rm.take_all(&mut pool);
    rm.put(&mut pool, b"bc").unwrap();
    rm.reserve_at_least(&mut pool, 4000).unwrap();
    assert!(rm.cap(&pool) >= 4000);
    assert_eq!(rm.bytes(&pool), b"bc");
}

#[test]
fn allocate_succeeds_while_buffers_are_free() {
    let mut pool = pool();
    let rm = RollMut::allocate(&mut pool).unwrap();
    assert_eq!(rm.cap(&pool), BUF_SIZE as usize);
    assert_eq!(rm.len(), 0);
    assert_eq!(rm.storage_size(&pool), BUF_SIZE as usize);
}

#[test]
fn filled_roll_keeps_its_bytes() {
    let mut pool = pool();
    let mut rm = RollMut::allocate(&mut pool).unwrap();
    rm.put(&mut pool, b"hello").unwrap();
    let hello = rm.filled(&mut pool);
    rm.put(&mut pool, b" world").unwrap();
    assert_eq!(hello.bytes(&pool), b"hello");
    rm.skip(3);
    rm.put(&mut pool, b"!").unwrap();
    assert_eq!(hello.bytes(&pool), b"hello");
    let tail = rm.filled(&mut pool);
    let kept = rm.filled(&mut pool).slice(2, 4);
    rm.keep(&mut pool, kept);
    rm.put(&mut pool, b"??").unwrap();
    assert_eq!(hello.bytes(&pool), b"hello");
    rm.realloc(&mut pool).unwrap();
    rm.put(&mut pool, b"more").unwrap();
    assert_eq!(hello.bytes(&pool), b"hello");
    rm.grow(&mut pool);
    rm.put(&mut pool, b"and more").unwrap();
    assert_eq!(hello.bytes(&pool), b"hello");
    assert_eq!(rm.bytes(&pool), b" world!??moreand more");
    assert_eq!(tail.bytes(&pool), b"lo world!");
}
