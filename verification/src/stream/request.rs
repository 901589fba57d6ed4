use crate::bytes::{fit, overwritten, same_bytes, Bytes, MIN_FREE};
use crate::error::{GlacierError, Kind};
use crate::files::FilesBuf;
use crate::stream::response::{append, decimal, decimal_digits};
use crate::stream::try_from::RequestMethod;
use crate::stream::glacier_stream::is_line_end;
use vstd::prelude::*;
use vstd::slice::slice_subrange;
use vstd::string::*;

verus! {

/// The space that separates the fields of a request line.
pub const SP: u8 = 32;

/// The colon that ends a header's key.
pub const COLON: u8 = 58;

/// The question mark that starts the query of a URI.
pub const QUERY: u8 = 63;

/// Offset of the first byte equal to `b` among the bytes `from .. to` of `s`.
pub open spec fn first_byte(s: Seq<u8>, b: u8, from: int, to: int) -> Option<int>
    decreases to - from,
{
    if from >= to {
        None
    } else if s[from] == b {
        Some(from)
    } else {
        first_byte(s, b, from + 1, to)
    }
}

/// `first_byte` finds a byte equal to `b`, in range, with none before it; and it
/// finds nothing only where there is none.
pub proof fn lemma_first_byte(s: Seq<u8>, b: u8, from: int, to: int)
    ensures
        match first_byte(s, b, from, to) {
            Some(p) => from <= p < to && s[p] == b && forall|q: int| from <= q < p ==> s[q] != b,
            None => forall|q: int| from <= q < to ==> s[q] != b,
        },
    decreases to - from,
{
    if from < to && s[from] != b {
        lemma_first_byte(s, b, from + 1, to);
    }
}

/// The first byte equal to `b` among the bytes `from .. to` of `s`.
pub fn find_byte(s: &[u8], b: u8, from: usize, to: usize) -> (found: Option<usize>)
    requires
        from <= to <= s@.len(),
    ensures
        match found {
            Some(p) => first_byte(s@, b, from as int, to as int) == Some(p as int),
            None => first_byte(s@, b, from as int, to as int) is None,
        },
{
    let mut i = from;
    while i < to
        invariant
            from <= i <= to <= s@.len(),
            first_byte(s@, b, from as int, to as int) == first_byte(s@, b, i as int, to as int),
        decreases to - i,
    {
        if s[i] == b {
            return Some(i);
        }
        i = i + 1;
    }
    None
}

/// The four offsets of the request line that spans `a .. b`, line end
/// included: where the method starts, and one past the separator behind the
/// method, the URI and the version. `None` where the line has fewer than two
/// spaces.
pub open spec fn request_line_spans(s: Seq<u8>, a: int, b: int) -> Option<Seq<int>> {
    match first_byte(s, SP, a, b) {
        None => None,
        Some(first) => match first_byte(s, SP, first + 1, b) {
            None => None,
            Some(second) => Some(seq![a, first + 1, second + 1, b - 1]),
        },
    }
}

/// The three offsets of the header line that spans `a .. b`, line end
/// included: where the key starts, where it ends, and where the line ends.
/// `None` where the line has no colon before its line end.
pub open spec fn header_spans(s: Seq<u8>, a: int, b: int) -> Option<Seq<int>> {
    match first_byte(s, COLON, a, b - 2) {
        None => None,
        Some(c) => Some(seq![a, c, b]),
    }
}

/// Whether `a .. b` spans a line of `s`, line end included.
pub open spec fn is_line(s: Seq<u8>, a: int, b: int) -> bool {
    0 <= a && a + 2 <= b && is_line_end(s, b)
}

/// The offsets of a table as integers.
pub open spec fn ints(v: Seq<usize>) -> Seq<int> {
    v.map_values(|p: usize| p as int)
}

/// The spans of a request line lie in the line, in order, each field before
/// its separator.
pub proof fn lemma_request_line_spans(s: Seq<u8>, a: int, b: int)
    requires
        is_line(s, a, b),
    ensures
        request_line_spans(s, a, b) matches Some(lp) ==> lp.len() == 4 && a == lp[0] < lp[1]
            < lp[2] < lp[3] == b - 1,
{
    lemma_first_byte(s, SP, a, b);
    if let Some(first) = first_byte(s, SP, a, b) {
        lemma_first_byte(s, SP, first + 1, b);
    }
}

/// The spans of a header line lie in the line, the key before the line end.
pub proof fn lemma_header_spans(s: Seq<u8>, a: int, b: int)
    requires
        is_line(s, a, b),
    ensures
        header_spans(s, a, b) matches Some(hp) ==> hp.len() == 3 && a == hp[0] <= hp[1] < b - 2
            && hp[2] == b,
{
    lemma_first_byte(s, COLON, a, b - 2);
}

/// A request line with its fields copied out. `parse` finds the same fields
/// as spans and copies nothing.
#[derive(Debug)]
pub struct RequestLine {
    pub method: RequestMethod,
    pub uri: Vec<u8>,
    pub version: Vec<u8>,
}

impl RequestLine {
    /// Finds the method, the URI and the version in the line that `pos` spans.
    pub fn parse(buf: &Bytes, pos: [usize; 2]) -> (spans: Result<[usize; 4], GlacierError>)
        requires
            buf.wf(),
            is_line(buf@, pos[0] as int, pos[1] as int),
        ensures
            match spans {
                Ok(lp) => request_line_spans(buf@, pos[0] as int, pos[1] as int) == Some(ints(lp@)),
                Err(e) => request_line_spans(buf@, pos[0] as int, pos[1] as int) is None && e
                    == GlacierError::OkErr(Kind::InRequest),
            },
    {
        let s = buf.as_slice();
        let first = match find_byte(s, SP, pos[0], pos[1]) {
            Some(p) => p,
            None => {
                return Err(GlacierError::OkErr(Kind::InRequest));
            },
        };
        proof {
            lemma_first_byte(s@, SP, pos[0] as int, pos[1] as int);
        }
        let second = match find_byte(s, SP, first + 1, pos[1]) {
            Some(p) => p,
            None => {
                return Err(GlacierError::OkErr(Kind::InRequest));
            },
        };
        proof {
            lemma_first_byte(s@, SP, first + 1, pos[1] as int);
        }
        let lp = [pos[0], first + 1, second + 1, pos[1] - 1];
        proof {
            assert(ints(lp@) =~= seq![pos[0] as int, first + 1, second + 1, pos[1] - 1]);
        }
        Ok(lp)
    }
}

/// The parser of header lines.
#[derive(Debug)]
pub struct RequestHeader;

impl RequestHeader {
    /// Finds the key of the header in the line that `line` spans.
    pub fn parse(buf: &Bytes, line: [usize; 2]) -> (spans: Result<[usize; 3], GlacierError>)
        requires
            buf.wf(),
            is_line(buf@, line[0] as int, line[1] as int),
        ensures
            match spans {
                Ok(hp) => header_spans(buf@, line[0] as int, line[1] as int) == Some(ints(hp@)),
                Err(e) => header_spans(buf@, line[0] as int, line[1] as int) is None && e
                    == GlacierError::OkErr(Kind::InRequest),
            },
    {
        let s = buf.as_slice();
        match find_byte(s, COLON, line[0], line[1] - 2) {
            Some(c) => {
                let hp = [line[0], c, line[1]];
                proof {
                    assert(ints(hp@) =~= seq![line[0] as int, c as int, line[1] as int]);
                }
                Ok(hp)
            },
            None => Err(GlacierError::OkErr(Kind::InRequest)),
        }
    }
}

/// The method that asks for no body.
pub open spec fn get_method() -> Seq<u8> {
    seq![71u8, 69u8, 84u8]
}

/// A parsed request as a mathematical value: the bytes of the arena, the four
/// offsets of the request line and the three offsets of each header line.
pub struct RequestView {
    pub bytes: Seq<u8>,
    pub line: Seq<int>,
    pub headers: Seq<Seq<int>>,
    pub addr: u128,
}

impl RequestView {
    /// Every span lies inside the bytes, its start not behind its end, and the
    /// empty line that closes the header block lies inside them too.
    pub open spec fn valid(self) -> bool {
        &&& self.line.len() == 4
        &&& 0 <= self.line[0] < self.line[1] < self.line[2] < self.line[3] < self.bytes.len()
        &&& forall|k: int|
            0 <= k < self.headers.len() ==> {
                let h = #[trigger] self.headers[k];
                h.len() == 3 && 0 <= h[0] <= h[1] && h[1] + 2 <= h[2] <= self.bytes.len()
            }
        &&& self.head_end() + 2 <= self.bytes.len()
    }

    /// Where the last line before the empty line ends.
    pub open spec fn head_end(self) -> int {
        if self.headers.len() == 0 {
            self.line[3] + 1
        } else {
            self.headers.last()[2]
        }
    }

    /// The request line without its line end.
    pub open spec fn request_line(self) -> Seq<u8> {
        self.bytes.subrange(self.line[0], self.line[3] - 1)
    }

    /// The method: what stands before the first space.
    pub open spec fn method(self) -> Seq<u8> {
        self.bytes.subrange(self.line[0], self.line[1] - 1)
    }

    /// The URI: what stands between the first two spaces.
    pub open spec fn path(self) -> Seq<u8> {
        self.bytes.subrange(self.line[1], self.line[2] - 1)
    }

    /// The version: what stands between the second space and the line end.
    pub open spec fn version(self) -> Seq<u8> {
        self.bytes.subrange(self.line[2], self.line[3] - 1)
    }

    /// The URI up to its first question mark.
    pub open spec fn path_for_routes(self) -> Seq<u8> {
        let uri = self.path();
        match first_byte(uri, QUERY, 0, uri.len() as int) {
            Some(q) => uri.take(q),
            None => uri,
        }
    }

    /// What follows the first question mark of the URI.
    pub open spec fn query(self) -> Option<Seq<u8>> {
        let uri = self.path();
        match first_byte(uri, QUERY, 0, uri.len() as int) {
            Some(q) => Some(uri.skip(q + 1)),
            None => None,
        }
    }

    /// The key of header `k`.
    pub open spec fn header_key(self, k: int) -> Seq<u8> {
        self.bytes.subrange(self.headers[k][0], self.headers[k][1])
    }

    /// The value of header `k`: what stands between the two bytes behind the
    /// key and the line end.
    pub open spec fn header_value(self, k: int) -> Seq<u8> {
        let h = self.headers[k];
        if h[1] + 2 <= h[2] - 2 {
            self.bytes.subrange(h[1] + 2, h[2] - 2)
        } else {
            Seq::empty()
        }
    }

    /// The first header from `from` on whose key is `key`.
    pub open spec fn find_header(self, key: Seq<u8>, from: int) -> Option<int>
        decreases self.headers.len() - from,
    {
        if from >= self.headers.len() {
            None
        } else if self.header_key(from) == key {
            Some(from)
        } else {
            self.find_header(key, from + 1)
        }
    }

    /// The value of the first header whose key is `key`.
    pub open spec fn query_header(self, key: Seq<u8>) -> Option<Seq<u8>> {
        match self.find_header(key, 0) {
            Some(k) => Some(self.header_value(k)),
            None => None,
        }
    }

    /// What follows the empty line, for every method but GET.
    pub open spec fn body(self) -> Option<Seq<u8>> {
        if self.method() == get_method() {
            None
        } else {
            Some(self.bytes.skip(self.head_end() + 2))
        }
    }
}

/// `find_header` finds a header with the key, with none before it; and it finds
/// nothing only where no header has the key.
pub proof fn lemma_find_header(r: RequestView, key: Seq<u8>, from: int)
    requires
        0 <= from,
    ensures
        match r.find_header(key, from) {
            Some(k) => from <= k < r.headers.len() && r.header_key(k) == key && forall|j: int|
                from <= j < k ==> r.header_key(j) != key,
            None => forall|j: int| from <= j < r.headers.len() ==> r.header_key(j) != key,
        },
    decreases r.headers.len() - from,
{
    if from < r.headers.len() && r.header_key(from) != key {
        lemma_find_header(r, key, from + 1);
    }
}

/// The header spans of a table as sequences of integers.
pub open spec fn header_ints(v: Seq<[usize; 3]>) -> Seq<Seq<int>> {
    v.map_values(|h: [usize; 3]| ints(h@))
}

/// The spans that the field extractor found in one request.
pub struct ReqInfo {
    pub line_pos: [usize; 4],
    pub headers_pos: Vec<[usize; 3]>,
}

impl ReqInfo {
    /// The request that these spans make of the bytes of an arena.
    pub open spec fn view_in(&self, bytes: Seq<u8>, addr: u128) -> RequestView {
        RequestView {
            bytes,
            line: ints(self.line_pos@),
            headers: header_ints(self.headers_pos@),
            addr,
        }
    }

    /// Whether the spans are valid in the arena `buf`.
    pub fn fits(&self, buf: &Bytes) -> (ok: bool)
        requires
            buf.wf(),
        ensures
            ok == self.view_in(buf@, 0).valid(),
    {
        let ghost view = self.view_in(buf@, 0);
        let n = buf.len();
        let lp = self.line_pos;
        assert(view.line =~= seq![lp[0] as int, lp[1] as int, lp[2] as int, lp[3] as int]);
        if !(lp[0] < lp[1] && lp[1] < lp[2] && lp[2] < lp[3] && lp[3] < n) {
            return false;
        }
        let count = self.headers_pos.len();
        let mut k: usize = 0;
        while k < count
            invariant
                k <= count == self.headers_pos@.len(),
                n == buf@.len(),
                view == self.view_in(buf@, 0),
                forall|j: int|
                    0 <= j < k ==> {
                        let h = #[trigger] view.headers[j];
                        h.len() == 3 && 0 <= h[0] <= h[1] && h[1] + 2 <= h[2] <= n
                    },
            decreases count - k,
        {
            let h = self.headers_pos[k];
            assert(view.headers[k as int] == ints(h@));
            if !(h[0] <= h[1] && h[1] <= h[2] && h[2] - h[1] >= 2 && h[2] <= n) {
                return false;
            }
            k = k + 1;
        }
        let head_end = if count == 0 {
            lp[3] + 1
        } else {
            let h = self.headers_pos[count - 1];
            assert(view.headers[count - 1] == ints(h@));
            h[2]
        };
        assert(head_end as int == view.head_end());
        head_end <= n && n - head_end >= 2
    }
}

/// One framed and parsed request: the arena that holds its bytes, and the
/// spans of its fields as offsets into the arena.
pub struct OneRequest {
    addr: u128,
    buf: Bytes,
    line_pos: [usize; 4],
    headers_pos: Vec<[usize; 3]>,
}

impl View for OneRequest {
    type V = RequestView;

    closed spec fn view(&self) -> RequestView {
        RequestView {
            bytes: self.buf@,
            line: ints(self.line_pos@),
            headers: header_ints(self.headers_pos@),
            addr: self.addr,
        }
    }
}

impl OneRequest {
    /// The arena is well formed and the spans are valid in it.
    pub closed spec fn wf(&self) -> bool {
        self.buf.wf() && self@.valid()
    }

    /// The arena of the request.
    pub closed spec fn arena(&self) -> Bytes {
        self.buf
    }

    /// A well-formed request has valid spans.
    pub proof fn lemma_wf(&self)
        requires
            self.wf(),
        ensures
            self@.valid(),
            self.arena().wf(),
            self.arena()@ == self@.bytes,
    {
    }

    /// Puts an arena and the spans found in it together. The spans must be
    /// valid in the arena, which `ReqInfo::fits` tells.
    pub fn new(buf: Bytes, req_info: ReqInfo, addr: u128) -> (req: OneRequest)
        requires
            buf.wf(),
            req_info.view_in(buf@, addr).valid(),
        ensures
            req.wf(),
            req.arena() == buf,
            req@ == req_info.view_in(buf@, addr),
    {
        OneRequest { addr, buf, line_pos: req_info.line_pos, headers_pos: req_info.headers_pos }
    }

    /// The address of the client.
    pub fn addr(&self) -> (addr: u128)
        ensures
            addr == self@.addr,
    {
        self.addr
    }

    /// Gives the arena back, for the next request on the connection.
    pub fn into_parts(self) -> (parts: (u128, Bytes))
        ensures
            parts.0 == self@.addr,
            parts.1 == self.arena(),
    {
        (self.addr, self.buf)
    }

    /// The request line without its line end.
    pub fn request_line(&self) -> (line: &[u8])
        requires
            self.wf(),
        ensures
            line@ == self@.request_line(),
    {
        slice_subrange(self.buf.as_slice(), self.line_pos[0], self.line_pos[3] - 1)
    }

    /// The method of the request.
    pub fn method(&self) -> (method: &[u8])
        requires
            self.wf(),
        ensures
            method@ == self@.method(),
    {
        slice_subrange(self.buf.as_slice(), self.line_pos[0], self.line_pos[1] - 1)
    }

    /// The URI of the request, query included.
    pub fn path(&self) -> (uri: &[u8])
        requires
            self.wf(),
        ensures
            uri@ == self@.path(),
    {
        slice_subrange(self.buf.as_slice(), self.line_pos[1], self.line_pos[2] - 1)
    }

    /// The URI without its query, by which a request is routed.
    pub fn path_for_routes(&self) -> (uri: &[u8])
        requires
            self.wf(),
        ensures
            uri@ == self@.path_for_routes(),
    {
        let uri = self.path();
        proof {
            lemma_first_byte(uri@, QUERY, 0, uri@.len() as int);
        }
        match find_byte(uri, QUERY, 0, uri.len()) {
            Some(q) => slice_subrange(uri, 0, q),
            None => uri,
        }
    }

    /// The query of the URI: what follows its first question mark.
    pub fn query(&self) -> (query: Option<&[u8]>)
        requires
            self.wf(),
        ensures
            match query {
                Some(q) => self@.query() == Some(q@),
                None => self@.query() is None,
            },
    {
        let uri = self.path();
        match find_byte(uri, QUERY, 0, uri.len()) {
            Some(q) => {
                proof {
                    lemma_first_byte(uri@, QUERY, 0, uri@.len() as int);
                }
                Some(slice_subrange(uri, q + 1, uri.len()))
            },
            None => None,
        }
    }

    /// The protocol version of the request.
    pub fn version(&self) -> (version: &[u8])
        requires
            self.wf(),
        ensures
            version@ == self@.version(),
    {
        slice_subrange(self.buf.as_slice(), self.line_pos[2], self.line_pos[3] - 1)
    }

    /// The first header whose key is `key`, byte for byte.
    fn header_index(&self, key: &[u8]) -> (index: Option<usize>)
        requires
            self.wf(),
        ensures
            match index {
                Some(k) => self@.find_header(key@, 0) == Some(k as int) && k < self@.headers.len(),
                None => self@.find_header(key@, 0) is None,
            },
    {
        let s = self.buf.as_slice();
        let mut k: usize = 0;
        while k < self.headers_pos.len()
            invariant
                self.wf(),
                s@ == self@.bytes,
                k <= self.headers_pos@.len(),
                self@.find_header(key@, 0) == self@.find_header(key@, k as int),
            decreases self.headers_pos@.len() - k,
        {
            let h = self.headers_pos[k];
            assert(self@.headers[k as int] == ints(h@));
            if same_bytes(slice_subrange(s, h[0], h[1]), key) {
                return Some(k);
            }
            k = k + 1;
        }
        None
    }

    /// The value of the first header whose key is `query_key`, byte for byte.
    pub fn query_header(&self, query_key: &str) -> (value: Option<&[u8]>)
        requires
            self.wf(),
        ensures
            match value {
                Some(v) => self@.query_header(query_key.spec_bytes()) == Some(v@),
                None => self@.query_header(query_key.spec_bytes()) is None,
            },
    {
        let k = match self.header_index(query_key.as_bytes()) {
            Some(k) => k,
            None => {
                return None;
            },
        };
        let s = self.buf.as_slice();
        let h = self.headers_pos[k];
        assert(self@.headers[k as int] == ints(h@));
        if h[1] + 2 <= h[2] - 2 {
            Some(slice_subrange(s, h[1] + 2, h[2] - 2))
        } else {
            Some(slice_subrange(s, h[2], h[2]))
        }
    }

    /// Rewrites in place the value of the first header whose key is `key`. The
    /// new value must be as long as the old one. Without such a header there
    /// is nothing to rewrite.
    pub fn set_header(&mut self, key: &str, value: &[u8]) -> (done: Result<(), GlacierError>)
        requires
            old(self).wf(),
        ensures
            final(self).wf(),
            final(self)@.line == old(self)@.line,
            final(self)@.headers == old(self)@.headers,
            final(self)@.addr == old(self)@.addr,
            match old(self)@.find_header(key.spec_bytes(), 0) {
                None => *final(self) == *old(self) && done == Err::<(), GlacierError>(
                    GlacierError::Option,
                ),
                Some(k) => if value@.len() == old(self)@.header_value(k).len() {
                    done is Ok && final(self)@.bytes == overwritten(
                        old(self)@.bytes,
                        old(self)@.headers[k][2] - 2 - value@.len(),
                        value@,
                    )
                } else {
                    *final(self) == *old(self) && done == Err::<(), GlacierError>(
                        GlacierError::OkErr(Kind::InRequest),
                    )
                },
            },
    {
        let k = match self.header_index(key.as_bytes()) {
            Some(k) => k,
            None => {
                return Err(GlacierError::Option);
            },
        };
        let h = self.headers_pos[k];
        assert(self@.headers[k as int] == ints(h@));
        let to = h[2] - 2;
        let from = if h[1] + 2 <= to {
            h[1] + 2
        } else {
            to
        };
        self.rewrite(from, to, value)
    }

    /// The scratch space behind the request, for a read of more of its body: at
    /// least `MIN_FREE` bytes. The request stays what it is. Fails, and changes
    /// nothing, where the arena would have to grow beyond what an offset can
    /// address.
    pub fn free_space(&mut self) -> (space: Result<&mut [u8], GlacierError>)
        requires
            old(self).wf(),
        ensures
            final(self).wf(),
            final(self)@ == old(self)@,
            match space {
                Ok(sp) => {
                    &&& fit(
                        old(self).arena().cap(),
                        old(self)@.bytes.len(),
                        MIN_FREE as nat,
                    ) <= usize::MAX
                    &&& sp@.len() + old(self)@.bytes.len() == fit(
                        old(self).arena().cap(),
                        old(self)@.bytes.len(),
                        MIN_FREE as nat,
                    )
                    &&& final(self).arena().spare() == final(sp)@
                },
                Err(e) => {
                    &&& fit(
                        old(self).arena().cap(),
                        old(self)@.bytes.len(),
                        MIN_FREE as nat,
                    ) > usize::MAX
                    &&& e == GlacierError::OkErr(Kind::InServer)
                    &&& final(self).arena() == old(self).arena()
                },
            },
    {
        self.buf.free_space()
    }

    /// Takes note of `n` more bytes of the body, read into the space that
    /// `free_space` handed out: they join the bytes of the request, behind
    /// all that is there. Fails, and changes nothing, where the free space
    /// could not hold them.
    pub fn on_body_read(&mut self, n: usize) -> (done: Result<(), GlacierError>)
        requires
            old(self).wf(),
        ensures
            final(self).wf(),
            final(self)@.line == old(self)@.line,
            final(self)@.headers == old(self)@.headers,
            final(self)@.addr == old(self)@.addr,
            n <= old(self).arena().spare().len() ==> done is Ok && final(self)@.bytes == old(
                self,
            )@.bytes + old(self).arena().spare().take(n as int),
            n > old(self).arena().spare().len() ==> *final(self) == *old(self) && done == Err::<
                (),
                GlacierError,
            >(GlacierError::OkErr(Kind::InServer)),
    {
        self.buf.commit(n)
    }

    /// Writes `value` over the bytes `from .. to` of the arena, where it has
    /// their length.
    fn rewrite(&mut self, from: usize, to: usize, value: &[u8]) -> (done: Result<
        (),
        GlacierError,
    >)
        requires
            old(self).wf(),
            from <= to <= old(self)@.bytes.len(),
        ensures
            final(self).wf(),
            final(self)@.line == old(self)@.line,
            final(self)@.headers == old(self)@.headers,
            final(self)@.addr == old(self)@.addr,
            value@.len() == to - from ==> done is Ok && final(self)@.bytes == overwritten(
                old(self)@.bytes,
                from as int,
                value@,
            ),
            value@.len() != to - from ==> *final(self) == *old(self) && done == Err::<
                (),
                GlacierError,
            >(GlacierError::OkErr(Kind::InRequest)),
    {
        if value.len() != to - from {
            return Err(GlacierError::OkErr(Kind::InRequest));
        }
        self.buf.overwrite(from, value)
    }

    /// Rewrites the method in place. The new method must be as long as the
    /// old one: nothing in the arena moves, and every span stays what it is.
    pub fn set_method(&mut self, value: &[u8]) -> (done: Result<(), GlacierError>)
        requires
            old(self).wf(),
        ensures
            final(self).wf(),
            final(self)@.line == old(self)@.line,
            final(self)@.headers == old(self)@.headers,
            final(self)@.addr == old(self)@.addr,
            value@.len() == old(self)@.method().len() ==> done is Ok && final(self)@.bytes
                == overwritten(old(self)@.bytes, old(self)@.line[0], value@),
            value@.len() != old(self)@.method().len() ==> *final(self) == *old(self) && done
                == Err::<(), GlacierError>(GlacierError::OkErr(Kind::InRequest)),
    {
        let from = self.line_pos[0];
        let to = self.line_pos[1] - 1;
        self.rewrite(from, to, value)
    }

    /// Rewrites the URI in place. The new URI must be as long as the old one.
    pub fn set_path(&mut self, value: &[u8]) -> (done: Result<(), GlacierError>)
        requires
            old(self).wf(),
        ensures
            final(self).wf(),
            final(self)@.line == old(self)@.line,
            final(self)@.headers == old(self)@.headers,
            final(self)@.addr == old(self)@.addr,
            value@.len() == old(self)@.path().len() ==> done is Ok && final(self)@.bytes
                == overwritten(old(self)@.bytes, old(self)@.line[1], value@),
            value@.len() != old(self)@.path().len() ==> *final(self) == *old(self) && done
                == Err::<(), GlacierError>(GlacierError::OkErr(Kind::InRequest)),
    {
        let from = self.line_pos[1];
        let to = self.line_pos[2] - 1;
        self.rewrite(from, to, value)
    }

    /// Rewrites the version in place. The new version must be as long as the
    /// old one.
    pub fn set_version(&mut self, value: &[u8]) -> (done: Result<(), GlacierError>)
        requires
            old(self).wf(),
        ensures
            final(self).wf(),
            final(self)@.line == old(self)@.line,
            final(self)@.headers == old(self)@.headers,
            final(self)@.addr == old(self)@.addr,
            value@.len() == old(self)@.version().len() ==> done is Ok && final(self)@.bytes
                == overwritten(old(self)@.bytes, old(self)@.line[2], value@),
            value@.len() != old(self)@.version().len() ==> *final(self) == *old(self) && done
                == Err::<(), GlacierError>(GlacierError::OkErr(Kind::InRequest)),
    {
        let from = self.line_pos[2];
        let to = self.line_pos[3] - 1;
        self.rewrite(from, to, value)
    }

    /// The body of the request as far as it has arrived. A GET has none.
    pub fn body(&self) -> (body: Option<&[u8]>)
        requires
            self.wf(),
        ensures
            match body {
                Some(b) => self@.body() == Some(b@),
                None => self@.body() is None,
            },
    {
        let s = self.buf.as_slice();
        let method = self.method();
        let is_get = method.len() == 3 && method[0] == 71 && method[1] == 69 && method[2] == 84;
        proof {
            if is_get {
                assert(method@ =~= get_method());
            } else if method@.len() == 3 {
                assert(get_method()[0] == 71 && get_method()[1] == 69 && get_method()[2] == 84);
            } else {
                assert(get_method().len() == 3);
            }
        }
        if is_get {
            return None;
        }
        let n = self.headers_pos.len();
        let len = s.len();
        assert(self@.line[3] == self.line_pos[3] as int);
        assert(self@.head_end() + 2 <= len);
        let head_end = if n == 0 {
            self.line_pos[3] + 1
        } else {
            let h = self.headers_pos[n - 1];
            assert(self@.headers[n - 1] == ints(h@));
            h[2]
        };
        Some(slice_subrange(s, head_end + 2, s.len()))
    }
}

/// What goes on the wire for one response: the header block, and the body,
/// which is written from where it lies.
pub struct Reply<'a> {
    pub head: Vec<u8>,
    pub body: &'a [u8],
}

/// The header block in front of a cached file of `len` bytes.
pub open spec fn cached_head(len: nat) -> Seq<u8> {
    "HTTP/1.1 200 OK\r\nContent-Length: ".spec_bytes() + decimal(len)
        + "\r\nConnection: keep-alive\r\n\r\n".spec_bytes()
}

/// The header block in front of a cached error page of `len` bytes.
pub open spec fn not_found_head(len: nat) -> Seq<u8> {
    "HTTP/1.1 404 Not Found\r\nContent-Length: ".spec_bytes() + decimal(len)
        + "\r\nConnection: close\r\n\r\n".spec_bytes()
}

/// The path under which the error page is looked up.
pub open spec fn not_found_page() -> Seq<u8> {
    "public/404.html".spec_bytes()
}

impl OneRequest {
    /// The response that serves the file cached under `file_path`.
    pub fn respond_buf<'a>(&self, files: &'a FilesBuf, file_path: &str) -> (reply: Result<
        Reply<'a>,
        GlacierError,
    >)
        ensures
            match reply {
                Ok(r) => {
                    &&& files@.contains_key(file_path.spec_bytes())
                    &&& r.body@ == files@[file_path.spec_bytes()]
                    &&& r.head@ == cached_head(r.body@.len())
                },
                Err(e) => !files@.contains_key(file_path.spec_bytes()) && e
                    == GlacierError::Option,
            },
    {
        let body = match files.get(file_path) {
            Some(body) => body,
            None => {
                return Err(GlacierError::Option);
            },
        };
        let mut head: Vec<u8> = Vec::new();
        append(&mut head, "HTTP/1.1 200 OK\r\nContent-Length: ".as_bytes());
        let digits = decimal_digits(body.len());
        append(&mut head, digits.as_slice());
        append(&mut head, "\r\nConnection: keep-alive\r\n\r\n".as_bytes());
        proof {
            assert(head@ =~= cached_head(body@.len()));
        }
        Ok(Reply { head, body })
    }

    /// The response that greets.
    pub fn respond_hello(&self) -> (reply: Reply<'static>)
        ensures
            reply.head@
                == "HTTP/1.1 200 OK\r\nContent-Length: 13\r\nConnection: keep-alive\r\n\r\n".spec_bytes(),
            reply.body@ == "Hello, world!".spec_bytes(),
    {
        let mut head: Vec<u8> = Vec::new();
        append(
            &mut head,
            "HTTP/1.1 200 OK\r\nContent-Length: 13\r\nConnection: keep-alive\r\n\r\n".as_bytes(),
        );
        proof {
            assert(head@ =~= "HTTP/1.1 200 OK\r\nContent-Length: 13\r\nConnection: keep-alive\r\n\r\n".spec_bytes());
        }
        Reply { head, body: "Hello, world!".as_bytes() }
    }

    /// The response to a request for what is not there: the cached error page
    /// where one is registered, a plain line else.
    pub fn respond_404<'a>(&self, files: &'a FilesBuf) -> (reply: Reply<'a>)
        ensures
            files@.contains_key(not_found_page()) ==> reply.body@ == files@[not_found_page()]
                && reply.head@ == not_found_head(reply.body@.len()),
            !files@.contains_key(not_found_page()) ==> reply.body@ == "404 Not Found".spec_bytes()
                && reply.head@
                == "HTTP/1.1 404 Not Found\r\nContent-Length: 13\r\nConnection: close\r\n\r\n".spec_bytes(),
    {
        let mut head: Vec<u8> = Vec::new();
        match files.get("public/404.html") {
            Some(body) => {
                append(&mut head, "HTTP/1.1 404 Not Found\r\nContent-Length: ".as_bytes());
                let digits = decimal_digits(body.len());
                append(&mut head, digits.as_slice());
                append(&mut head, "\r\nConnection: close\r\n\r\n".as_bytes());
                proof {
                    assert(head@ =~= not_found_head(body@.len()));
                }
                Reply { head, body }
            },
            None => {
                append(
                    &mut head,
                    "HTTP/1.1 404 Not Found\r\nContent-Length: 13\r\nConnection: close\r\n\r\n".as_bytes(),
                );
                proof {
                    assert(head@ =~= "HTTP/1.1 404 Not Found\r\nContent-Length: 13\r\nConnection: close\r\n\r\n".spec_bytes());
                }
                Reply { head, body: "404 Not Found".as_bytes() }
            },
        }
    }
}

} // verus!
