use vstd::prelude::*;
use vstd::string::*;

verus! {

/// A response, ready for the wire.
#[derive(Debug)]
pub struct Response {
    pub buf: Vec<u8>,
}

/// The content types that the builder knows by name.
pub enum ContentType {
    Plain,
    Html,
    Json,
}

/// Puts `bytes` behind what `buf` holds.
pub fn append(buf: &mut Vec<u8>, bytes: &[u8])
    ensures
        final(buf)@ == old(buf)@ + bytes@,
{
    buf.extend_from_slice(bytes);
    proof {
        assert(buf@ =~= old(buf)@ + bytes@);
    }
}

/// The decimal digits of `n`, most significant first.
pub open spec fn decimal(n: nat) -> Seq<u8>
    decreases n,
{
    if n < 10 {
        seq![(48 + n) as u8]
    } else {
        decimal(n / 10).push((48 + n % 10) as u8)
    }
}

/// Writes `n` in decimal.
pub fn decimal_digits(n: usize) -> (digits: Vec<u8>)
    ensures
        digits@ == decimal(n as nat),
{
    let mut rev: Vec<u8> = Vec::new();
    let mut rest = n;
    while rest >= 10
        invariant
            decimal(n as nat) == decimal(rest as nat) + rev@.reverse(),
        decreases rest,
    {
        let d = (rest % 10) as u8;
        let ghost before = rev@;
        rev.push(48 + d);
        proof {
            assert(decimal(rest as nat) == decimal((rest / 10) as nat).push((48 + rest % 10) as u8));
            assert(rev@.reverse() =~= seq![(48 + d) as u8] + before.reverse());
            assert(decimal(rest as nat) + before.reverse() =~= decimal((rest / 10) as nat)
                + rev@.reverse());
        }
        rest = rest / 10;
    }
    let mut digits: Vec<u8> = Vec::new();
    digits.push(48 + rest as u8);
    let mut i = rev.len();
    while i > 0
        invariant
            i <= rev@.len(),
            rest < 10,
            digits@ == decimal(rest as nat) + rev@.reverse().take(rev@.len() - i),
        decreases i,
    {
        i = i - 1;
        let ghost before = digits@;
        digits.push(rev[i]);
        proof {
            let r = rev@.reverse();
            assert(r[rev@.len() - 1 - i] == rev@[i as int]);
            assert(r.take(rev@.len() - i) =~= r.take(rev@.len() - i - 1).push(rev@[i as int]));
        }
    }
    proof {
        assert(rev@.reverse().take(rev@.len() as int) =~= rev@.reverse());
    }
    digits
}

/// The status line of the two statuses that the builder knows; nothing for any
/// other.
pub open spec fn status_line(status: u16) -> Seq<u8> {
    if status == 200 {
        "HTTP/1.1 200 OK\r\n".spec_bytes()
    } else if status == 404 {
        "HTTP/1.1 404 Not Found\r\n".spec_bytes()
    } else {
        Seq::empty()
    }
}

/// One header line.
pub open spec fn header_line(key: Seq<u8>, value: Seq<u8>) -> Seq<u8> {
    key + ": ".spec_bytes() + value + "\r\n".spec_bytes()
}

/// The value of the content type header for each named type.
pub open spec fn content_type_value(t: ContentType) -> Seq<u8> {
    match t {
        ContentType::Plain => "text/plain; charset=UTF-8".spec_bytes(),
        ContentType::Html => "text/html; charset=UTF-8".spec_bytes(),
        ContentType::Json => "application/json; charset=UTF-8".spec_bytes(),
    }
}

/// The length header, the empty line that closes the header block, and the
/// body.
pub open spec fn body_block(body: Seq<u8>) -> Seq<u8> {
    "Content-Length: ".spec_bytes() + decimal(body.len()) + "\r\n\r\n".spec_bytes() + body
}

/// Builds a response front to back: status line, headers, body.
pub struct ResponseBuilder {
    buf: Vec<u8>,
}

impl View for ResponseBuilder {
    type V = Seq<u8>;

    /// The bytes written so far.
    closed spec fn view(&self) -> Seq<u8> {
        self.buf@
    }
}

impl ResponseBuilder {
    /// An empty builder with room for `capacity` bytes.
    pub fn new(capacity: usize) -> (builder: Self)
        ensures
            builder@ == Seq::<u8>::empty(),
    {
        ResponseBuilder { buf: Vec::with_capacity(capacity) }
    }

    /// Writes the status line.
    pub fn status(self, status: u16) -> (builder: Self)
        ensures
            builder@ == self@ + status_line(status),
    {
        let mut buf = self.buf;
        if status == 200 {
            append(&mut buf, "HTTP/1.1 200 OK\r\n".as_bytes());
        } else if status == 404 {
            append(&mut buf, "HTTP/1.1 404 Not Found\r\n".as_bytes());
        } else {
            assert(buf@ + Seq::<u8>::empty() =~= buf@);
        }
        ResponseBuilder { buf }
    }

    /// Writes one header line.
    pub fn header(self, key: &str, value: &str) -> (builder: Self)
        ensures
            builder@ == self@ + header_line(key.spec_bytes(), value.spec_bytes()),
    {
        let mut buf = self.buf;
        let ghost before = buf@;
        append(&mut buf, key.as_bytes());
        append(&mut buf, ": ".as_bytes());
        append(&mut buf, value.as_bytes());
        append(&mut buf, "\r\n".as_bytes());
        proof {
            assert(buf@ =~= before + header_line(key.spec_bytes(), value.spec_bytes()));
        }
        ResponseBuilder { buf }
    }

    /// Writes the content type header.
    pub fn content_type(self, t: ContentType) -> (builder: Self)
        ensures
            builder@ == self@ + header_line(
                "Content-Type".spec_bytes(),
                content_type_value(t),
            ),
    {
        match t {
            ContentType::Plain => self.header("Content-Type", "text/plain; charset=UTF-8"),
            ContentType::Html => self.header("Content-Type", "text/html; charset=UTF-8"),
            ContentType::Json => self.header("Content-Type", "application/json; charset=UTF-8"),
        }
    }

    /// Writes the length header, closes the header block and writes the body.
    pub fn body(self, body: &[u8]) -> (builder: Self)
        ensures
            builder@ == self@ + body_block(body@),
    {
        let mut buf = self.buf;
        let ghost before = buf@;
        append(&mut buf, "Content-Length: ".as_bytes());
        let digits = decimal_digits(body.len());
        append(&mut buf, digits.as_slice());
        append(&mut buf, "\r\n\r\n".as_bytes());
        append(&mut buf, body);
        proof {
            assert(buf@ =~= before + body_block(body@));
        }
        ResponseBuilder { buf }
    }

    /// Hands the response out.
    pub fn build(self) -> (response: Response)
        ensures
            response.buf@ == self@,
    {
        Response { buf: self.buf }
    }
}

} // verus!
