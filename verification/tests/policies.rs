use glacier::config::IntoAddr;
use glacier::error::{GlacierError, Kind};
use glacier::middles::ip_middle::{ip_middle, IpEntry, IpTable};
use glacier::my_future::{BatchStep, MyFuture, MyFutureTasks, PollStream};
use glacier::request_ext::{ApplyExt, FilterExt};
use glacier::stream::glacier_stream::{GlacierStream, ReadEvent};
use glacier::stream::pipeline::{next, Action, Event, Stage};
use glacier::stream::request::{find_byte, OneRequest, RequestLine};
use glacier::stream::response::{Response, ResponseBuilder};
use glacier::stream::try_from::{method_from_bytes, RequestMethod};

fn request(addr: u128) -> OneRequest {
    let bytes = b"GET /a HTTP/1.1\r\n\r\n";
    let mut stream = GlacierStream::new(addr);
    let space = stream.free_space().unwrap();
    space[..bytes.len()].copy_from_slice(bytes);
    stream.on_read(ReadEvent::Data(bytes.len())).unwrap();
    stream.to_req().unwrap()
}

#[test]
fn first_visit_is_noted() {
    let mut table = IpTable::new();
    assert_eq!(table.get(5), None);
    let req = ip_middle(request(5), &mut table, 1000, 100, 2).unwrap();
    assert_eq!(req.path(), b"/a");
    assert_eq!(table.get(5), Some(IpEntry { last_time: 1000, count: 1 }));
    assert_eq!(table.get(6), None);
}

#[test]
fn first_visit_without_a_least_interval() {
    let mut table = IpTable::new();
    ip_middle(request(5), &mut table, 1000, 0, 2).unwrap();
    assert_eq!(table.get(5), Some(IpEntry { last_time: 1000, count: 0 }));
}

#[test]
fn slow_client_starts_a_new_interval() {
    let mut table = IpTable::new();
    ip_middle(request(5), &mut table, 1000, 100, 2).unwrap();
    ip_middle(request(5), &mut table, 1100, 100, 2).unwrap();
    assert_eq!(table.get(5), Some(IpEntry { last_time: 1100, count: 1 }));
    ip_middle(request(5), &mut table, 1199, 100, 2).unwrap();
    assert_eq!(table.get(5), Some(IpEntry { last_time: 1100, count: 2 }));
}

#[test]
fn fast_client_is_turned_away() {
    let mut table = IpTable::new();
    for now in 0..3 {
        assert!(ip_middle(request(9), &mut table, now, 50, 2).is_ok());
    }
    assert_eq!(table.get(9), Some(IpEntry { last_time: 0, count: 3 }));
    let err = ip_middle(request(9), &mut table, 3, 50, 2).err().unwrap();
    assert_eq!(err.kind(), Some(Kind::InRequest));
    assert!(matches!(err, GlacierError::NotOkErr(_)));
    assert_eq!(table.get(9), Some(IpEntry { last_time: 0, count: 3 }));
    assert!(ip_middle(request(9), &mut table, 100_000, 50, 2).is_err());
    assert!(ip_middle(request(8), &mut table, 3, 50, 2).is_ok());
}

#[test]
fn clock_that_runs_backwards() {
    let mut table = IpTable::new();
    ip_middle(request(5), &mut table, 1000, 0, 2).unwrap();
    ip_middle(request(5), &mut table, 900, 10, 2).unwrap();
    assert_eq!(table.get(5), Some(IpEntry { last_time: 1000, count: 1 }));
}

#[test]
fn batch_goes_out_when_full() {
    let poll = PollStream::with_capacity(3);
    assert_eq!(poll.capacity(), 3);
    assert_eq!(poll.step(1, true), BatchStep::Continue);
    assert_eq!(poll.step(2, true), BatchStep::Continue);
    assert_eq!(poll.step(3, true), BatchStep::Ready);
    assert_eq!(poll.step(4, true), BatchStep::Ready);
}

#[test]
fn batch_goes_out_when_the_listener_is_empty() {
    let poll = PollStream::with_capacity(64);
    assert_eq!(poll.step(0, false), BatchStep::Pending);
    assert_eq!(poll.step(1, false), BatchStep::Ready);
    assert_eq!(poll.step(63, false), BatchStep::Ready);
}

#[test]
fn batch_of_no_capacity() {
    let poll = PollStream::with_capacity(0);
    assert_eq!(poll.step(0, false), BatchStep::Pending);
    assert_eq!(poll.step(1, true), BatchStep::Ready);
}

#[test]
fn finished_task_stays_finished() {
    let mut task = MyFuture::new();
    assert!(!task.is_done());
    assert!(!task.on_poll(false));
    assert!(!task.is_done());
    assert!(task.on_poll(true));
    assert!(task.is_done());
    assert!(task.on_poll(false));
    assert!(task.is_done());
}

#[test]
fn joined_tasks_finish_when_all_have() {
    let mut set = MyFutureTasks::new(vec![MyFuture::new(), MyFuture::new(), MyFuture::new()]);
    assert_eq!(set.len(), 3);
    assert!(!set.is_done());
    assert!(set.needs_poll(0) && set.needs_poll(1) && set.needs_poll(2));
    assert!(!set.needs_poll(3));
    set.on_poll(1, true);
    set.on_poll(0, false);
    set.on_poll(7, true);
    assert!(set.needs_poll(0) && !set.needs_poll(1) && set.needs_poll(2));
    assert!(!set.is_done());
    set.on_poll(0, true);
    set.on_poll(1, false);
    assert!(!set.is_done());
    set.on_poll(2, true);
    assert!(set.is_done());
    assert!(!set.needs_poll(0) && !set.needs_poll(1) && !set.needs_poll(2));
}

#[test]
fn empty_set_of_tasks_has_finished() {
    let set = MyFutureTasks::new(Vec::new());
    assert_eq!(set.len(), 0);
    assert!(set.is_done());
}

#[test]
fn addresses() {
    assert_eq!(8080u16.into_addr(), (String::from("127.0.0.1"), 8080));
    assert_eq!(("0.0.0.0", 443u16).into_addr(), (String::from("0.0.0.0"), 443));
}

#[test]
fn filters_and_handlers_get_the_request() {
    let passed: Result<OneRequest, String> = request(4).filter_with(|req| Ok(req));
    assert_eq!(passed.unwrap().addr(), 4);
    let denied: Result<OneRequest, String> =
        request(4).filter_with(|req| Err(format!("no {}", req.addr())));
    assert_eq!(denied.err(), Some(String::from("no 4")));
    let answer: Result<Response, String> =
        request(4).apply(|req| Ok(ResponseBuilder::new(8).body(req.path()).build()));
    assert_eq!(answer.unwrap().buf, b"Content-Length: 2\r\n\r\n/a");
    let failed: Result<Response, u8> = request(4).apply(|_| Err(3));
    assert_eq!(failed.err(), Some(3));
}

#[test]
fn known_methods() {
    assert_eq!(RequestMethod::try_from("GET"), Ok(RequestMethod::Get));
    assert_eq!(RequestMethod::try_from("POST"), Ok(RequestMethod::Post));
    assert_eq!(RequestMethod::try_from("get"), Err(GlacierError::OkErr(Kind::InRequest)));
    assert_eq!(RequestMethod::try_from("PUT"), Err(GlacierError::OkErr(Kind::InRequest)));
    assert_eq!(RequestMethod::try_from(""), Err(GlacierError::OkErr(Kind::InRequest)));
    assert_eq!(method_from_bytes(b"POST"), Ok(RequestMethod::Post));
    assert_eq!(method_from_bytes(b"POST "), Err(GlacierError::OkErr(Kind::InRequest)));
}

#[test]
fn request_line_copied_out() {
    let line = RequestLine::try_from(b"GET /favicon.ico HTTP/1.1").unwrap();
    assert_eq!(line.method, RequestMethod::Get);
    assert_eq!(line.uri, b"/favicon.ico");
    assert_eq!(line.version, b"HTTP/1.1");
    let more = RequestLine::try_from(b"POST  x y z").unwrap();
    assert_eq!(more.method, RequestMethod::Post);
    assert_eq!(more.uri, b"");
    assert_eq!(more.version, b"x");
}

#[test]
fn request_line_that_cannot_be_copied_out() {
    let malformed = Some(GlacierError::OkErr(Kind::InRequest));
    assert_eq!(RequestLine::try_from(b"GET /favicon.ico").err(), malformed);
    assert_eq!(RequestLine::try_from(b"GET").err(), malformed);
    assert_eq!(RequestLine::try_from(b"").err(), malformed);
    assert_eq!(RequestLine::try_from(b"PUT / HTTP/1.1").err(), malformed);
}

#[test]
fn first_byte_in_a_range() {
    assert_eq!(find_byte(b"a b c", b' ', 0, 5), Some(1));
    assert_eq!(find_byte(b"a b c", b' ', 2, 5), Some(3));
    assert_eq!(find_byte(b"a b c", b' ', 4, 5), None);
    assert_eq!(find_byte(b"a b c", b' ', 1, 1), None);
    assert_eq!(find_byte(b"a b c", b'c', 0, 4), None);
}

#[test]
fn connection_cycle_with_keep_alive() {
    let (stage, action) = next(Stage::Idle, Event::Ready);
    assert_eq!((stage, action), (Stage::Framing, Action::Read));
    let (stage, action) = next(stage, Event::Read { framed: false });
    assert_eq!((stage, action), (Stage::Framing, Action::Read));
    let (stage, action) = next(stage, Event::Read { framed: true });
    assert_eq!((stage, action), (Stage::Parsed, Action::Extract));
    let (stage, action) = next(stage, Event::Extracted);
    assert_eq!((stage, action), (Stage::Dispatching, Action::Dispatch));
    let (stage, action) = next(stage, Event::Routed { keep_alive: true });
    assert_eq!((stage, action), (Stage::Responding { keep_alive: true }, Action::Write));
    let (stage, action) = next(stage, Event::Written);
    assert_eq!((stage, action), (Stage::Idle, Action::Reset));
    assert_eq!(next(stage, Event::Ready), (Stage::Framing, Action::Read));
}

#[test]
fn connection_closes_when_the_handler_says_so() {
    let (stage, action) = next(Stage::Dispatching, Event::Routed { keep_alive: false });
    assert_eq!((stage, action), (Stage::Responding { keep_alive: false }, Action::Write));
    assert_eq!(next(stage, Event::Written), (Stage::Closed, Action::Close));
}

#[test]
fn failures_and_stray_events_close_the_connection() {
    let closed = (Stage::Closed, Action::Close);
    for stage in [
        Stage::Idle,
        Stage::Framing,
        Stage::Parsed,
        Stage::Dispatching,
        Stage::Responding { keep_alive: true },
        Stage::Responding { keep_alive: false },
        Stage::Closed,
    ] {
        assert_eq!(next(stage, Event::Failed), closed);
    }
    assert_eq!(next(Stage::Idle, Event::Written), closed);
    assert_eq!(next(Stage::Framing, Event::Ready), closed);
    assert_eq!(next(Stage::Parsed, Event::Read { framed: true }), closed);
    assert_eq!(next(Stage::Closed, Event::Ready), closed);
}
