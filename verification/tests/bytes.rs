use glacier::bytes::{is_lf, same_bytes, Bytes};
use glacier::error::{GlacierError, Kind};

fn filled(capacity: usize, bytes: &[u8]) -> Bytes {
    let mut buf = Bytes::with_capacity(capacity);
    let mut rest = bytes;
    while !rest.is_empty() {
        let space = buf.get_free_space();
        let n = rest.len().min(space.len());
        space[..n].copy_from_slice(&rest[..n]);
        buf.modify_len(n);
        rest = &rest[n..];
    }
    buf
}

#[test]
fn test() {
    let a = [0; 10];
    let b = &a[..3];

    println!("{:#?}", b);
}

#[test]
fn new_arena_is_empty() {
    let buf = Bytes::with_capacity(100);
    assert!(buf.is_empty());
    assert_eq!(buf.len(), 0);
    assert_eq!(buf.capacity(), 100);
    assert_eq!(buf.as_slice(), b"");
}

#[test]
fn growth_doubles_and_starts_from_nothing() {
    let mut buf = Bytes::with_capacity(0);
    buf.grow();
    assert_eq!(buf.capacity(), 32);
    buf.grow();
    assert_eq!(buf.capacity(), 64);
    let mut odd = Bytes::with_capacity(3);
    odd.grow();
    assert_eq!(odd.capacity(), 6);
}

#[test]
fn growth_preserves_content() {
    let mut buf = filled(4, b"abc");
    assert_eq!(buf.capacity(), 32);
    for _ in 0..5 {
        buf.grow();
        assert_eq!(buf.as_slice(), b"abc");
    }
    assert_eq!(buf.capacity(), 1024);
}

#[test]
fn free_space_grows_until_the_least_is_free() {
    let mut buf = Bytes::with_capacity(4);
    assert_eq!(buf.get_free_space().len(), 32);
    assert_eq!(buf.capacity(), 32);
    buf.modify_len(1);
    assert_eq!(buf.get_free_space().len(), 63);
    assert_eq!(buf.capacity(), 64);
    assert_eq!(buf.get_free_space().len(), 63);
    assert_eq!(buf.capacity(), 64);
}

#[test]
fn free_space_keeps_what_was_written() {
    let text: Vec<u8> = (0..200u8).collect();
    let mut buf = filled(1, &text);
    assert_eq!(buf.as_slice(), &text[..]);
    let before = buf.capacity();
    buf.get_free_space()[0] = 255;
    assert_eq!(buf.as_slice(), &text[..]);
    assert!(buf.capacity() >= before);
    buf.modify_len(1);
    assert_eq!(buf.len(), 201);
    assert_eq!(buf.as_slice()[200], 255);
}

#[test]
fn thirty_two_bytes_of_space() {
    let mut buf = filled(40, b"0123456789");
    assert_eq!(buf.get_32_space().len(), 32);
    assert_eq!(buf.capacity(), 80);
    buf.get_32_space()[..2].copy_from_slice(b"ab");
    buf.modify_len(2);
    assert_eq!(buf.as_slice(), b"0123456789ab");
}

#[test]
fn checked_free_space_and_commit() {
    let mut buf = Bytes::with_capacity(64);
    let space = buf.free_space().unwrap();
    assert_eq!(space.len(), 64);
    space[..5].copy_from_slice(b"hello");
    assert_eq!(buf.commit(5), Ok(()));
    assert_eq!(buf.as_slice(), b"hello");
    assert_eq!(buf.commit(60), Err(GlacierError::OkErr(Kind::InServer)));
    assert_eq!(buf.as_slice(), b"hello");
    assert_eq!(buf.commit(59), Ok(()));
    assert_eq!(buf.len(), 64);
}

#[test]
fn clear_keeps_the_capacity() {
    let mut buf = filled(16, b"some bytes that make the arena grow a few times over");
    let capacity = buf.capacity();
    buf.clear();
    assert!(buf.is_empty());
    assert_eq!(buf.capacity(), capacity);
    buf.get_free_space()[..2].copy_from_slice(b"xy");
    buf.modify_len(2);
    assert_eq!(buf.as_slice(), b"xy");
    assert_eq!(buf.capacity(), capacity);
}

#[test]
fn written_bytes_are_overwritten_through_the_slice() {
    let mut buf = filled(64, b"GET /");
    buf.as_slice_mut()[0] = b'P';
    assert_eq!(buf.as_slice_mut().len(), 5);
    assert_eq!(buf.as_slice(), b"PET /");
}

#[test]
fn overwrite_in_place() {
    let mut buf = filled(64, b"hello world");
    assert_eq!(buf.overwrite(6, b"there"), Ok(()));
    assert_eq!(buf.as_slice(), b"hello there");
    assert_eq!(buf.overwrite(7, b"there"), Err(GlacierError::OkErr(Kind::InServer)));
    assert_eq!(buf.overwrite(12, b""), Err(GlacierError::OkErr(Kind::InServer)));
    assert_eq!(buf.overwrite(11, b""), Ok(()));
    assert_eq!(buf.as_slice(), b"hello there");
}

#[test]
fn text_of_the_written_bytes() {
    let buf = filled(64, "caf\u{e9} \u{2603}".as_bytes());
    assert_eq!(buf.as_str(), Ok("caf\u{e9} \u{2603}"));
    assert_eq!(buf.to_string(), Ok(String::from("caf\u{e9} \u{2603}")));
    let empty = Bytes::with_capacity(8);
    assert_eq!(empty.as_str(), Ok(""));
}

#[test]
fn bytes_that_are_no_text() {
    let buf = filled(64, &[b'a', 0xff, b'b']);
    assert_eq!(buf.as_str(), Err(GlacierError::OkErr(Kind::UTF8Error)));
    assert_eq!(buf.to_string(), Err(GlacierError::OkErr(Kind::UTF8Error)));
    let cut = filled(64, &"\u{2603}".as_bytes()[..2]);
    assert_eq!(cut.to_string(), Err(GlacierError::OkErr(Kind::UTF8Error)));
}

#[test]
fn end_of_the_header_block() {
    assert!(filled(64, b"GET / HTTP/1.1\r\n\r\n").is_end());
    assert!(filled(64, b"\r\n\r\n").is_end());
    assert!(!filled(64, b"GET / HTTP/1.1\r\n").is_end());
    assert!(!filled(64, b"\r\n\r").is_end());
    assert!(!filled(64, b"\n\r\n\r").is_end());
    assert!(!filled(64, b"GET / HTTP/1.1\r\n\r\nbody").is_end());
    assert!(!Bytes::with_capacity(8).is_end());
}

#[test]
fn first_line_of_the_written_bytes() {
    assert_eq!(filled(64, b"GET / HTTP/1.1\r\nHost: h\r\n").first_line(), Some(&b"GET / HTTP/1.1"[..]));
    assert_eq!(filled(64, b"\r\nrest").first_line(), Some(&b""[..]));
    assert_eq!(filled(64, b"ab\r\n").first_line(), Some(&b"ab"[..]));
    assert_eq!(filled(64, b"no line end\r").first_line(), None);
    assert_eq!(filled(64, b"a\nb\rc").first_line(), None);
    assert_eq!(filled(64, b"\r").first_line(), None);
    assert_eq!(Bytes::with_capacity(8).first_line(), None);
}

#[test]
fn line_end_bytes() {
    assert!(is_lf(b"\r\n"));
    assert!(!is_lf(b"\n\r"));
    assert!(!is_lf(b"\r"));
    assert!(!is_lf(b"\r\n\r\n"));
    assert!(!is_lf(b""));
    assert!(!is_lf(b"ab"));
}

#[test]
fn equal_and_unequal_slices() {
    assert!(same_bytes(b"", b""));
    assert!(same_bytes(b"Host", b"Host"));
    assert!(!same_bytes(b"Host", b"host"));
    assert!(!same_bytes(b"Host", b"Hos"));
    assert!(!same_bytes(b"Hos", b"Host"));
}
