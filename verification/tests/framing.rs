use glacier::bytes::Bytes;
use glacier::error::{GlacierError, Kind};
use glacier::stream::glacier_stream::{GlacierStream, ReadEvent};
use glacier::stream::request::{OneRequest, ReqInfo, RequestHeader, RequestLine};

fn feed(stream: &mut GlacierStream, chunk: &[u8]) -> Result<bool, GlacierError> {
    let mut done = false;
    let mut rest = chunk;
    while !rest.is_empty() {
        let space = stream.free_space()?;
        let n = rest.len().min(space.len());
        space[..n].copy_from_slice(&rest[..n]);
        done = stream.on_read(ReadEvent::Data(n))?;
        rest = &rest[n..];
    }
    Ok(done)
}

fn parsed(bytes: &[u8]) -> Result<OneRequest, GlacierError> {
    let mut stream = GlacierStream::new(1);
    feed(&mut stream, bytes)?;
    stream.to_req()
}

fn arena(bytes: &[u8]) -> Bytes {
    let mut buf = Bytes::with_capacity(bytes.len() + 32);
    let space = buf.get_free_space();
    space[..bytes.len()].copy_from_slice(bytes);
    buf.modify_len(bytes.len());
    buf
}

const REQUEST: &[u8] = b"GET /a/b?x=1 HTTP/1.1\r\nHost: h\r\n\r\n";

#[test]
fn whole_request_in_one_read() {
    let mut stream = GlacierStream::new(7);
    assert_eq!(feed(&mut stream, REQUEST), Ok(true));
    assert!(stream.is_framed());
    assert_eq!(stream.positions(), &vec![0, 23, 32]);
    assert_eq!(stream.body_start(), Some(34));
    assert_eq!(stream.addr(), 7);
}

#[test]
fn one_byte_at_a_time_gives_the_same_table() {
    let mut whole = GlacierStream::new(1);
    feed(&mut whole, REQUEST).unwrap();
    let mut bytewise = GlacierStream::new(1);
    let mut done = false;
    for b in REQUEST {
        assert!(!done);
        done = feed(&mut bytewise, &[*b]).unwrap();
    }
    assert!(done);
    assert_eq!(bytewise.positions(), whole.positions());
    assert_eq!(bytewise.is_framed(), whole.is_framed());
    assert_eq!(bytewise.body_start(), whole.body_start());
    assert_eq!(bytewise.buf().as_slice(), whole.buf().as_slice());
}

#[test]
fn every_cut_in_two_gives_the_same_table() {
    for cut in 0..=REQUEST.len() {
        let mut stream = GlacierStream::new(1);
        feed(&mut stream, &REQUEST[..cut]).unwrap();
        feed(&mut stream, &REQUEST[cut..]).unwrap();
        assert!(stream.is_framed());
        assert_eq!(stream.positions(), &vec![0, 23, 32]);
    }
}

#[test]
fn line_end_split_between_two_reads() {
    let mut stream = GlacierStream::new(1);
    assert_eq!(feed(&mut stream, b"GET / HTTP/1.1\r"), Ok(false));
    assert_eq!(stream.positions(), &vec![0]);
    assert_eq!(feed(&mut stream, b"\n\r"), Ok(false));
    assert_eq!(stream.positions(), &vec![0, 16]);
    assert_eq!(feed(&mut stream, b"\n"), Ok(true));
    assert_eq!(stream.positions(), &vec![0, 16]);
}

#[test]
fn bytes_behind_the_boundary_are_not_scanned() {
    let mut stream = GlacierStream::new(1);
    let done = feed(&mut stream, b"POST /p HTTP/1.1\r\nA: b\r\n\r\nline\r\n\r\nmore\r\n");
    assert_eq!(done, Ok(true));
    assert_eq!(stream.positions(), &vec![0, 18, 24]);
    let req = stream.to_req().unwrap();
    assert_eq!(req.body(), Some(&b"line\r\n\r\nmore\r\n"[..]));
}

#[test]
fn lone_carriage_returns_and_line_feeds_end_no_line() {
    let mut stream = GlacierStream::new(1);
    assert_eq!(feed(&mut stream, b"a\rb\nc\n\rd"), Ok(false));
    assert_eq!(stream.positions(), &vec![0]);
}

#[test]
fn stream_that_starts_with_an_empty_line() {
    let mut stream = GlacierStream::new(1);
    assert_eq!(feed(&mut stream, b"\r\n"), Ok(true));
    assert_eq!(stream.positions(), &vec![0]);
    assert_eq!(stream.to_req().err(), Some(GlacierError::Option));
}

#[test]
fn to_req_before_the_boundary() {
    let mut stream = GlacierStream::new(1);
    assert_eq!(feed(&mut stream, b"GET / HTTP/1.1\r\n"), Ok(false));
    assert_eq!(stream.body_start(), None);
    assert_eq!(stream.to_req().err(), Some(GlacierError::Option));
}

#[test]
fn zero_copy_round_trip() {
    let req = parsed(REQUEST).unwrap();
    assert_eq!(req.method(), b"GET");
    assert_eq!(req.path(), b"/a/b?x=1");
    assert_eq!(req.path_for_routes(), b"/a/b");
    assert_eq!(req.version(), b"HTTP/1.1");
    assert_eq!(req.request_line(), b"GET /a/b?x=1 HTTP/1.1");
    assert_eq!(req.query_header("Host"), Some(&b"h"[..]));
    assert_eq!(req.query_header("host"), None);
    assert_eq!(req.query(), Some(&b"x=1"[..]));
    assert_eq!(req.body(), None);
    assert_eq!(req.addr(), 1);
}

#[test]
fn path_without_a_query() {
    let req = parsed(b"GET /public/index.html HTTP/1.1\r\n\r\n").unwrap();
    assert_eq!(req.path_for_routes(), b"/public/index.html");
    assert_eq!(req.path(), b"/public/index.html");
    assert_eq!(req.query(), None);
}

#[test]
fn query_with_a_second_question_mark() {
    let req = parsed(b"GET /public?a=1&b=?2 HTTP/1.1\r\n\r\n").unwrap();
    assert_eq!(req.path_for_routes(), b"/public");
    assert_eq!(req.query(), Some(&b"a=1&b=?2"[..]));
}

#[test]
fn first_of_two_headers_with_one_key_wins() {
    let req = parsed(b"GET / HTTP/1.1\r\nX: one\r\nY: y\r\nX: two\r\n\r\n").unwrap();
    assert_eq!(req.query_header("X"), Some(&b"one"[..]));
    assert_eq!(req.query_header("Y"), Some(&b"y"[..]));
    assert_eq!(req.query_header("Z"), None);
}

#[test]
fn header_values_keep_what_follows_the_two_bytes_behind_the_key() {
    let req = parsed(b"GET / HTTP/1.1\r\nA:\r\nB: \r\nC:xy\r\nD: a: b\r\n\r\n").unwrap();
    assert_eq!(req.query_header("A"), Some(&b""[..]));
    assert_eq!(req.query_header("B"), Some(&b""[..]));
    assert_eq!(req.query_header("C"), Some(&b"y"[..]));
    assert_eq!(req.query_header("D"), Some(&b"a: b"[..]));
}

#[test]
fn malformed_request_line_is_rejected() {
    assert_eq!(
        parsed(b"BADLINE\r\n\r\n").err(),
        Some(GlacierError::OkErr(Kind::InRequest))
    );
}

#[test]
fn request_line_with_one_space_is_rejected() {
    assert_eq!(
        parsed(b"GET /index.html\r\n\r\n").err(),
        Some(GlacierError::OkErr(Kind::InRequest))
    );
}

#[test]
fn header_without_a_colon_is_rejected() {
    assert_eq!(
        parsed(b"GET / HTTP/1.1\r\nHost h\r\n\r\n").err(),
        Some(GlacierError::OkErr(Kind::InRequest))
    );
}

#[test]
fn request_line_that_starts_with_a_space() {
    let req = parsed(b" / HTTP/1.1\r\n\r\n").unwrap();
    assert_eq!(req.method(), b"");
    assert_eq!(req.path(), b"/");
    assert_eq!(req.version(), b"HTTP/1.1");
}

#[test]
fn request_line_parser_gives_the_four_offsets() {
    let buf = arena(b"GET /favicon.ico HTTP/1.1\r\n");
    assert_eq!(RequestLine::parse(&buf, [0, 27]), Ok([0, 4, 17, 26]));
    let bad = arena(b"GET\r\n");
    assert_eq!(
        RequestLine::parse(&bad, [0, 5]),
        Err(GlacierError::OkErr(Kind::InRequest))
    );
}

#[test]
fn header_parser_gives_the_three_offsets() {
    let buf = arena(b"xx\r\nHost: example\r\n");
    assert_eq!(RequestHeader::parse(&buf, [4, 19]), Ok([4, 8, 19]));
    assert_eq!(
        RequestHeader::parse(&buf, [0, 4]),
        Err(GlacierError::OkErr(Kind::InRequest))
    );
}

#[test]
fn request_from_its_parts() {
    let buf = arena(b"GET / HTTP/1.1\r\nHost: h\r\n\r\n");
    let info = ReqInfo { line_pos: [0, 4, 6, 15], headers_pos: vec![[16, 20, 25]] };
    assert!(info.fits(&buf));
    let req = OneRequest::new(buf, info, 9);
    assert_eq!(req.method(), b"GET");
    assert_eq!(req.path(), b"/");
    assert_eq!(req.version(), b"HTTP/1.1");
    assert_eq!(req.query_header("Host"), Some(&b"h"[..]));
    assert_eq!(req.addr(), 9);
}

#[test]
fn spans_that_do_not_fit_the_arena() {
    let buf = arena(b"GET / HTTP/1.1\r\nHost: h\r\n\r\n");
    let fits = |line_pos: [usize; 4], headers_pos: Vec<[usize; 3]>| {
        ReqInfo { line_pos, headers_pos }.fits(&buf)
    };
    assert!(fits([0, 4, 6, 15], vec![[16, 20, 25]]));
    assert!(fits([0, 4, 6, 15], vec![]));
    assert!(fits([0, 1, 2, 3], vec![[0, 0, 2], [5, 6, 8]]));
    assert!(!fits([0, 4, 6, 28], vec![]));
    assert!(!fits([0, 4, 4, 15], vec![]));
    assert!(!fits([4, 4, 6, 15], vec![]));
    assert!(!fits([0, 4, 6, 15], vec![[16, 20, 26]]));
    assert!(!fits([0, 4, 6, 15], vec![[16, 20, 21]]));
    assert!(!fits([0, 4, 6, 15], vec![[21, 20, 25]]));
    assert!(!fits([0, 4, 6, 15], vec![[16, 20, 25], [0, 1, 28]]));
    assert!(!fits([0, 4, 6, 26], vec![]));
}

#[test]
fn body_grows_with_later_reads() {
    let mut req = parsed(b"POST /upload HTTP/1.1\r\nContent-Length: 5\r\n\r\nhe").unwrap();
    assert_eq!(req.body(), Some(&b"he"[..]));
    let space = req.free_space().unwrap();
    assert!(space.len() >= 32);
    space[..3].copy_from_slice(b"llo");
    assert_eq!(req.on_body_read(3), Ok(()));
    assert_eq!(req.body(), Some(&b"hello"[..]));
    assert_eq!(req.method(), b"POST");
    assert_eq!(req.query_header("Content-Length"), Some(&b"5"[..]));
    assert_eq!(
        req.on_body_read(usize::MAX),
        Err(GlacierError::OkErr(Kind::InServer))
    );
    assert_eq!(req.body(), Some(&b"hello"[..]));
}

#[test]
fn post_without_headers_has_a_body() {
    let req = parsed(b"POST / HTTP/1.1\r\n\r\nabc").unwrap();
    assert_eq!(req.body(), Some(&b"abc"[..]));
}

#[test]
fn fields_are_rewritten_in_place() {
    let mut req = parsed(b"GET /old HTTP/1.1\r\nHost: aaa\r\n\r\n").unwrap();
    assert_eq!(req.set_method(b"PUT"), Ok(()));
    assert_eq!(req.set_path(b"/new"), Ok(()));
    assert_eq!(req.set_version(b"HTTP/1.0"), Ok(()));
    assert_eq!(req.set_header("Host", b"bbb"), Ok(()));
    assert_eq!(req.request_line(), b"PUT /new HTTP/1.0");
    assert_eq!(req.query_header("Host"), Some(&b"bbb"[..]));
}

#[test]
fn rewriting_with_another_length_is_rejected() {
    let mut req = parsed(b"GET /old HTTP/1.1\r\nHost: aaa\r\n\r\n").unwrap();
    let malformed = Err(GlacierError::OkErr(Kind::InRequest));
    assert_eq!(req.set_method(b"POST"), malformed);
    assert_eq!(req.set_path(b"/"), malformed);
    assert_eq!(req.set_version(b"HTTP/2"), malformed);
    assert_eq!(req.set_header("Host", b"bb"), malformed);
    assert_eq!(req.set_header("Nope", b"bbb"), Err(GlacierError::Option));
    assert_eq!(req.request_line(), b"GET /old HTTP/1.1");
    assert_eq!(req.query_header("Host"), Some(&b"aaa"[..]));
}

#[test]
fn timeout_after_a_partial_request_line() {
    let mut stream = GlacierStream::new(1);
    assert_eq!(feed(&mut stream, b"GET /inde"), Ok(false));
    assert_eq!(
        stream.on_read(ReadEvent::TimedOut),
        Err(GlacierError::OkErr(Kind::TimeOutErr))
    );
    assert_eq!(stream.buf().as_slice(), b"GET /inde");
}

#[test]
fn end_of_stream_and_failures_close_the_connection() {
    let mut stream = GlacierStream::new(1);
    feed(&mut stream, b"GET /").unwrap();
    assert_eq!(stream.on_read(ReadEvent::Eof), Err(GlacierError::OkErr(Kind::EofErr)));
    assert_eq!(stream.on_read(ReadEvent::Data(0)), Err(GlacierError::OkErr(Kind::EofErr)));
    assert_eq!(stream.on_read(ReadEvent::Failed), Err(GlacierError::OkErr(Kind::IOErr)));
    assert_eq!(
        stream.on_read(ReadEvent::Data(usize::MAX)),
        Err(GlacierError::OkErr(Kind::InServer))
    );
    assert_eq!(stream.buf().as_slice(), b"GET /");
    assert_eq!(stream.positions(), &vec![0]);
}

#[test]
fn request_longer_than_the_arena() {
    let mut long = b"GET /".to_vec();
    long.extend(std::iter::repeat(b'a').take(3000));
    long.extend_from_slice(b" HTTP/1.1\r\nHost: h\r\n\r\n");
    let req = parsed(&long).unwrap();
    assert_eq!(req.path().len(), 3001);
    assert_eq!(req.version(), b"HTTP/1.1");
    assert_eq!(req.query_header("Host"), Some(&b"h"[..]));
}

#[test]
fn keep_alive_reuses_the_arena() {
    let mut stream = GlacierStream::new(3);
    feed(&mut stream, b"GET /first HTTP/1.1\r\nHost: one\r\n\r\n").unwrap();
    let capacity = stream.buf().capacity();
    assert_eq!(capacity, 1024);
    let first = stream.to_req().unwrap();
    assert_eq!(first.path(), b"/first");
    let mut stream = GlacierStream::reuse(first);
    assert!(stream.buf().is_empty());
    assert!(!stream.is_framed());
    assert_eq!(stream.positions(), &vec![0]);
    assert_eq!(stream.addr(), 3);
    feed(&mut stream, b"GET /2 HTTP/1.1\r\nHost: two\r\n\r\n").unwrap();
    assert_eq!(stream.buf().capacity(), capacity);
    let second = stream.to_req().unwrap();
    assert_eq!(second.path(), b"/2");
    assert_eq!(second.request_line(), b"GET /2 HTTP/1.1");
    assert_eq!(second.query_header("Host"), Some(&b"two"[..]));
}

#[test]
fn begin_empties_a_stream() {
    let mut stream = GlacierStream::new(3);
    feed(&mut stream, REQUEST).unwrap();
    stream.begin();
    assert!(stream.buf().is_empty());
    assert!(!stream.is_framed());
    assert_eq!(stream.positions(), &vec![0]);
    assert_eq!(feed(&mut stream, REQUEST), Ok(true));
    assert_eq!(stream.positions(), &vec![0, 23, 32]);
}
