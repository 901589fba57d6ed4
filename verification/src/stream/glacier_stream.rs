use crate::bytes::{fit, Bytes, CR, LF, MIN_FREE};
use crate::error::{GlacierError, Kind};
use crate::stream::request::{
    header_ints, header_spans, ints, is_line, lemma_header_spans, lemma_request_line_spans,
    request_line_spans, OneRequest, ReqInfo, RequestHeader, RequestLine, RequestView,
};
use vstd::prelude::*;

verus! {

/// Whether a line ends at offset `e`: the two bytes before `e` are CR and LF.
pub open spec fn is_line_end(s: Seq<u8>, e: int) -> bool {
    2 <= e <= s.len() && s[e - 2] == CR && s[e - 1] == LF
}

/// Whether the empty line that closes the header block ends at offset `b`: a
/// line ends at `b`, and it starts where the stream starts or where the line
/// before it ends.
pub open spec fn is_blank_end(s: Seq<u8>, b: int) -> bool {
    is_line_end(s, b) && (b == 2 || is_line_end(s, b - 2))
}

/// What the scanner knows of a stream: the position table, which starts with
/// offset 0 and then holds the end of each line, and whether the empty line
/// behind the last of them has been seen.
pub struct Scan {
    pub table: Seq<int>,
    pub done: bool,
}

/// Where the body starts, once the scanner has seen the empty line that closes
/// the header block: behind that line, which follows the last recorded line.
pub open spec fn boundary(st: Scan) -> Option<int> {
    if st.done {
        Some(st.table.last() + 2)
    } else {
        None
    }
}

/// The scanner before the first byte.
pub open spec fn scan_start() -> Scan {
    Scan { table: seq![0int], done: false }
}

/// The scanner after it has looked at byte `i` of `s`. Once the header block is
/// closed nothing changes any more. A line end two bytes behind the last
/// recorded offset is the empty line: it closes the block and is not recorded.
pub open spec fn scan_byte(st: Scan, s: Seq<u8>, i: int) -> Scan {
    if st.done || !is_line_end(s, i + 1) {
        st
    } else if i + 1 - st.table.last() == 2 {
        Scan { table: st.table, done: true }
    } else {
        Scan { table: st.table.push(i + 1), done: false }
    }
}

/// The scanner after it has looked at the bytes `from .. to` of `s` in turn.
pub open spec fn scan_range(st: Scan, s: Seq<u8>, from: int, to: int) -> Scan
    decreases to - from,
{
    if to <= from {
        st
    } else {
        scan_byte(scan_range(st, s, from, to - 1), s, to - 1)
    }
}

/// The scanner after all of `s`.
pub open spec fn scan_all(s: Seq<u8>) -> Scan {
    scan_range(scan_start(), s, 0, s.len() as int)
}

/// Scanning a range in two parts, cut anywhere, is scanning it at once.
pub proof fn lemma_scan_split(st: Scan, s: Seq<u8>, a: int, b: int, c: int)
    requires
        a <= b <= c,
    ensures
        scan_range(scan_range(st, s, a, b), s, b, c) == scan_range(st, s, a, c),
    decreases c - b,
{
    if b < c {
        lemma_scan_split(st, s, a, b, c - 1);
    }
}

/// What the scanner finds up to an offset depends on the bytes before that
/// offset alone.
pub proof fn lemma_scan_prefix(st: Scan, s: Seq<u8>, t: Seq<u8>, from: int, to: int)
    requires
        0 <= from,
        to <= s.len(),
        to <= t.len(),
        s.take(to) == t.take(to),
    ensures
        scan_range(st, s, from, to) == scan_range(st, t, from, to),
    decreases to - from,
{
    if from < to {
        assert(s.take(to - 1) =~= s.take(to).take(to - 1));
        assert(t.take(to - 1) =~= t.take(to).take(to - 1));
        lemma_scan_prefix(st, s, t, from, to - 1);
        if to >= 2 {
            assert(s[to - 2] == s.take(to)[to - 2]);
            assert(t[to - 2] == t.take(to)[to - 2]);
        }
        assert(s[to - 1] == s.take(to)[to - 1]);
        assert(t[to - 1] == t.take(to)[to - 1]);
    }
}

/// What holds of the scanner after the first `n` bytes of `s`. The table starts
/// with 0 and then holds, in order, exactly the line ends up to the empty line
/// that closes the header block, or up to `n` where there is none yet. Each
/// recorded line holds at least one byte before its line end. The block counts
/// as closed exactly when an empty line ends within the first `n` bytes, and
/// then the first such line ends two bytes behind the last recorded offset.
pub open spec fn scan_inv(st: Scan, s: Seq<u8>, n: int) -> bool {
    &&& st.table.len() >= 1
    &&& st.table[0] == 0
    &&& st.table.last() <= n
    &&& forall|k: int|
        1 <= k < st.table.len() ==> is_line_end(s, #[trigger] st.table[k]) && st.table[k - 1] + 2
            < st.table[k]
    &&& forall|e: int|
        is_line_end(s, e) && e <= (if st.done {
            st.table.last()
        } else {
            n
        }) ==> #[trigger] st.table.contains(e)
    &&& st.done ==> is_blank_end(s, st.table.last() + 2) && st.table.last() + 2 <= n
    &&& forall|b: int|
        #[trigger] is_blank_end(s, b) && b <= n ==> st.done && st.table.last() + 2 <= b
}

/// The table and the flag that the scanner holds after any number of bytes
/// are the ones that `scan_inv` describes.
pub proof fn lemma_scan_inv(s: Seq<u8>, n: int)
    requires
        0 <= n <= s.len(),
    ensures
        scan_inv(scan_range(scan_start(), s, 0, n), s, n),
    decreases n,
{
    if n == 0 {
        let st = scan_range(scan_start(), s, 0, 0);
        assert(st.table =~= seq![0int]);
    } else {
        lemma_scan_inv(s, n - 1);
        let st = scan_range(scan_start(), s, 0, n - 1);
        let next = scan_byte(st, s, n - 1);
        assert(scan_range(scan_start(), s, 0, n) == next);
        let last = st.table.last();
        if st.done {
        } else if !is_line_end(s, n) {
            assert forall|b: int| #[trigger] is_blank_end(s, b) && b <= n implies next.done
                && next.table.last() + 2 <= b by {}
        } else {
            // No line ends one byte before another one.
            assert(!is_line_end(s, n - 1));
            if last != 0 {
                assert(st.table[st.table.len() - 1] == last);
                assert(is_line_end(s, last));
            }
            assert(last <= n - 2);
            if n - last == 2 {
                assert(is_blank_end(s, n));
            } else {
                assert(next.table == st.table.push(n));
                assert forall|k: int| 1 <= k < next.table.len() implies is_line_end(
                    s,
                    #[trigger] next.table[k],
                ) && next.table[k - 1] + 2 < next.table[k] by {
                    if k < st.table.len() {
                        assert(next.table[k] == st.table[k]);
                        assert(next.table[k - 1] == st.table[k - 1]);
                    }
                }
                assert forall|e: int| is_line_end(s, e) && e <= n implies #[trigger] next.table.contains(
                    e,
                ) by {
                    if e < n {
                        assert(st.table.contains(e));
                        let k = choose|k: int| 0 <= k < st.table.len() && st.table[k] == e;
                        assert(next.table[k] == e);
                    } else {
                        assert(next.table[st.table.len() as int] == n);
                    }
                }
                assert forall|b: int| #[trigger] is_blank_end(s, b) && b <= n implies false by {
                    if b == n {
                        // The line before would end at n - 2 and be the last one recorded.
                        assert(is_line_end(s, n - 2));
                        assert(st.table.contains(n - 2));
                        let k = choose|k: int| 0 <= k < st.table.len() && st.table[k] == n - 2;
                        lemma_table_increasing(st, s, n - 1, k, st.table.len() - 1);
                    }
                }
            }
        }
    }
}

/// Whether each entry of a table behind the first ends a line of `s` that
/// starts at the entry before it.
pub open spec fn brackets_lines(s: Seq<u8>, table: Seq<int>) -> bool {
    forall|k: int| 1 <= k < table.len() ==> is_line(s, table[k - 1], #[trigger] table[k])
}

/// The table of the scanner brackets the lines of the stream.
pub proof fn lemma_table_lines(st: Scan, s: Seq<u8>, n: int)
    requires
        scan_inv(st, s, n),
    ensures
        brackets_lines(s, st.table),
{
    assert forall|k: int| 1 <= k < st.table.len() implies is_line(
        s,
        st.table[k - 1],
        #[trigger] st.table[k],
    ) by {
        lemma_table_increasing(st, s, n, 0, k - 1);
        assert(st.table[k - 1] + 2 < st.table[k]);
    }
}

/// The offsets of a table grow from one entry to the next.
pub proof fn lemma_table_increasing(st: Scan, s: Seq<u8>, n: int, i: int, j: int)
    requires
        scan_inv(st, s, n),
        0 <= i <= j < st.table.len(),
    ensures
        st.table[i] <= st.table[j],
        i < j ==> st.table[i] < st.table[j],
    decreases j - i,
{
    if i < j {
        lemma_table_increasing(st, s, n, i, j - 1);
        assert(st.table[j - 1] + 2 < st.table[j]);
    }
}

/// The stream after one more read: the buffer with the chunk behind it, and the
/// scanner after the bytes of the chunk.
pub open spec fn feed(buf: Seq<u8>, st: Scan, chunk: Seq<u8>) -> (Seq<u8>, Scan) {
    (buf + chunk, scan_range(st, buf + chunk, buf.len() as int, (buf.len() + chunk.len()) as int))
}

/// The stream after a series of reads.
pub open spec fn feed_all(buf: Seq<u8>, st: Scan, chunks: Seq<Seq<u8>>) -> (Seq<u8>, Scan)
    decreases chunks.len(),
{
    if chunks.len() == 0 {
        (buf, st)
    } else {
        let before = feed_all(buf, st, chunks.drop_last());
        feed(before.0, before.1, chunks.last())
    }
}

/// The chunks of a series of reads, one behind the other.
pub open spec fn joined(chunks: Seq<Seq<u8>>) -> Seq<u8>
    decreases chunks.len(),
{
    if chunks.len() == 0 {
        Seq::empty()
    } else {
        joined(chunks.drop_last()) + chunks.last()
    }
}

/// Framing does not depend on how the stream is cut into reads: whatever the
/// chunks, the scanner ends with the table and the boundary that it finds when
/// all the bytes come in one read.
pub proof fn lemma_chunk_invariance(chunks: Seq<Seq<u8>>)
    ensures
        feed_all(Seq::empty(), scan_start(), chunks) == (joined(chunks), scan_all(joined(chunks))),
        feed_all(Seq::empty(), scan_start(), chunks) == feed(
            Seq::empty(),
            scan_start(),
            joined(chunks),
        ),
    decreases chunks.len(),
{
    let whole = joined(chunks);
    assert(Seq::<u8>::empty() + whole =~= whole);
    if chunks.len() > 0 {
        lemma_chunk_invariance(chunks.drop_last());
        let before = joined(chunks.drop_last());
        let n = before.len() as int;
        assert(whole.take(n) =~= before);
        assert(before.take(n) =~= before);
        lemma_scan_prefix(scan_start(), before, whole, 0, n);
        lemma_scan_split(scan_start(), whole, 0, n, whole.len() as int);
    }
}

/// Whether the three offsets `h` are those of a header line of `s` that ends
/// at `end`.
pub open spec fn header_fits(s: Seq<u8>, h: Seq<int>, end: int) -> bool {
    h.len() == 3 && 0 <= h[0] <= h[1] && h[1] + 2 <= h[2] <= s.len() && h[2] == end
}

/// Whether every line behind the request line has a key.
pub open spec fn headers_parse(s: Seq<u8>, table: Seq<int>) -> bool {
    forall|k: int| 2 <= k < table.len() ==> (#[trigger] header_spans(s, table[k - 1], table[k])) is Some
}

/// The request that a framed stream holds. Nothing is there to extract before
/// the header block is complete, nor where it holds no line at all. A request
/// line with fewer than two spaces, or a header line without a colon, makes
/// the request malformed.
pub open spec fn extract(s: Seq<u8>, st: Scan, addr: u128) -> Result<RequestView, GlacierError> {
    if !st.done || st.table.len() < 2 {
        Err(GlacierError::Option)
    } else if request_line_spans(s, st.table[0], st.table[1]) is None || !headers_parse(
        s,
        st.table,
    ) {
        Err(GlacierError::OkErr(Kind::InRequest))
    } else {
        Ok(
            RequestView {
                bytes: s,
                line: request_line_spans(s, st.table[0], st.table[1])->0,
                headers: Seq::new(
                    (st.table.len() - 2) as nat,
                    |k: int| header_spans(s, st.table[k + 1], st.table[k + 2])->0,
                ),
                addr,
            },
        )
    }
}

/// A request that is extracted from the content of a stream has all its spans
/// inside that content: it refers to nothing but the bytes that were read
/// since the stream was last emptied.
pub proof fn lemma_extract_valid(s: Seq<u8>, addr: u128)
    ensures
        extract(s, scan_all(s), addr) matches Ok(v) ==> v.valid() && v.bytes == s,
{
    let st = scan_all(s);
    if let Ok(v) = extract(s, st, addr) {
        let table = st.table;
        let n = table.len() as int;
        lemma_scan_inv(s, s.len() as int);
        lemma_table_lines(st, s, s.len() as int);
        assert(is_line(s, table[0], table[1]));
        lemma_request_line_spans(s, table[0], table[1]);
        assert forall|k: int| 0 <= k < v.headers.len() implies header_fits(
            s,
            #[trigger] v.headers[k],
            table[k + 2],
        ) by {
            assert(is_line(s, table[k + 1], table[k + 2]));
            assert(header_spans(s, table[k + 2 - 1], table[k + 2]) is Some);
            lemma_header_spans(s, table[k + 1], table[k + 2]);
        }
        assert(table.last() == table[n - 1]);
        if n > 2 {
            assert(header_fits(s, v.headers[n - 3], table[n - 1]));
        }
        assert(v.head_end() == table[n - 1]);
    }
}

/// Runs the header parser over every line of the table behind the request
/// line.
fn parse_headers(buf: &Bytes, pos: &Vec<usize>) -> (headers: Result<Vec<[usize; 3]>, GlacierError>)
    requires
        buf.wf(),
        pos@.len() >= 2,
        brackets_lines(buf@, ints(pos@)),
    ensures
        match headers {
            Ok(hs) => {
                &&& headers_parse(buf@, ints(pos@))
                &&& hs@.len() == pos@.len() - 2
                &&& forall|j: int|
                    0 <= j < hs@.len() ==> ints((#[trigger] hs@[j])@) == header_spans(
                        buf@,
                        ints(pos@)[j + 1],
                        ints(pos@)[j + 2],
                    )->0
                &&& forall|j: int|
                    0 <= j < hs@.len() ==> header_fits(
                        buf@,
                        ints((#[trigger] hs@[j])@),
                        ints(pos@)[j + 2],
                    )
            },
            Err(e) => !headers_parse(buf@, ints(pos@)) && e == GlacierError::OkErr(Kind::InRequest),
        },
{
    let ghost s = buf@;
    let ghost table = ints(pos@);
    let n = pos.len();
    let mut headers_pos: Vec<[usize; 3]> = Vec::new();
    let mut k: usize = 2;
    while k < n
        invariant
            buf.wf(),
            s == buf@,
            table == ints(pos@),
            brackets_lines(s, table),
            2 <= k <= n == pos@.len(),
            headers_pos@.len() == k - 2,
            forall|j: int|
                2 <= j < k ==> (#[trigger] header_spans(s, table[j - 1], table[j])) is Some,
            forall|j: int|
                0 <= j < k - 2 ==> ints((#[trigger] headers_pos@[j])@) == header_spans(
                    s,
                    table[j + 1],
                    table[j + 2],
                )->0,
            forall|j: int|
                0 <= j < k - 2 ==> header_fits(s, ints((#[trigger] headers_pos@[j])@), table[j + 2]),
        decreases n - k,
    {
        let a = pos[k - 1];
        let b = pos[k];
        proof {
            assert(table[k - 1] == a as int && table[k as int] == b as int);
            assert(is_line(s, table[k - 1], table[k as int]));
            lemma_header_spans(s, a as int, b as int);
        }
        match RequestHeader::parse(buf, [a, b]) {
            Ok(hp) => {
                headers_pos.push(hp);
                proof {
                    assert(header_fits(s, ints(hp@), table[k as int]));
                }
            },
            Err(e) => {
                proof {
                    assert(header_spans(s, table[k - 1], table[k as int]) is None);
                }
                return Err(e);
            },
        }
        k = k + 1;
    }
    Ok(headers_pos)
}

/// How many seconds one read may take before it counts as timed out.
pub const READ_DEADLINE_SECS: u64 = 10;

/// What became of one read on the connection.
#[derive(Debug, Clone, Copy, PartialEq, Eq, Structural)]
pub enum ReadEvent {
    /// So many bytes arrived in the space that `free_space` handed out.
    Data(usize),
    /// The peer closed the connection.
    Eof,
    /// The deadline of the read passed.
    TimedOut,
    /// The transport failed.
    Failed,
}

/// A connection between two requests or in the middle of one: the arena, and
/// the scanner's position table over what the arena holds.
pub struct GlacierStream {
    addr: u128,
    buf: Bytes,
    pos: Vec<usize>,
    done: bool,
}

impl GlacierStream {
    /// The bytes read so far.
    pub closed spec fn content(&self) -> Seq<u8> {
        self.buf@
    }

    /// The arena.
    pub closed spec fn arena(&self) -> Bytes {
        self.buf
    }

    /// What the scanner holds.
    pub closed spec fn scan(&self) -> Scan {
        Scan { table: ints(self.pos@), done: self.done }
    }

    /// The address of the client.
    pub closed spec fn client(&self) -> u128 {
        self.addr
    }

    /// The arena is well formed and the scanner has seen all of it.
    pub closed spec fn wf(&self) -> bool {
        self.buf.wf() && self.scan() == scan_all(self.buf@)
    }

    /// A well-formed stream holds what scanning its content gives.
    pub proof fn lemma_wf(&self)
        requires
            self.wf(),
        ensures
            self.arena().wf(),
            self.arena()@ == self.content(),
            self.scan() == scan_all(self.content()),
            scan_inv(self.scan(), self.content(), self.content().len() as int),
    {
        lemma_scan_inv(self.buf@, self.buf@.len() as int);
    }

    /// A stream for a connection that was just accepted.
    pub fn new(addr: u128) -> (stream: GlacierStream)
        ensures
            stream.wf(),
            stream.client() == addr,
            stream.content() == Seq::<u8>::empty(),
            stream.scan() == scan_start(),
            stream.arena().cap() == 1024,
    {
        let mut pos = Vec::with_capacity(10);
        pos.push(0usize);
        let stream = GlacierStream { addr, buf: Bytes::with_capacity(1024), pos, done: false };
        proof {
            assert(ints(stream.pos@) =~= seq![0int]);
        }
        stream
    }

    /// A stream for the next request on the connection of a request that has
    /// been answered. The arena is kept and emptied: nothing of the old request
    /// is left in it.
    pub fn reuse(req: OneRequest) -> (stream: GlacierStream)
        requires
            req.wf(),
        ensures
            stream.wf(),
            stream.client() == req@.addr,
            stream.content() == Seq::<u8>::empty(),
            stream.scan() == scan_start(),
            stream.arena().cap() == req.arena().cap(),
    {
        let (addr, mut buf) = req.into_parts();
        buf.clear();
        let mut pos = Vec::with_capacity(10);
        pos.push(0usize);
        let stream = GlacierStream { addr, buf, pos, done: false };
        proof {
            assert(ints(stream.pos@) =~= seq![0int]);
        }
        stream
    }

    /// Empties the arena and the table for the next request.
    pub fn begin(&mut self)
        ensures
            final(self).wf(),
            final(self).client() == old(self).client(),
            final(self).content() == Seq::<u8>::empty(),
            final(self).scan() == scan_start(),
            final(self).arena().cap() == old(self).arena().cap(),
    {
        self.buf.clear();
        let mut pos = Vec::with_capacity(10);
        pos.push(0usize);
        self.pos = pos;
        self.done = false;
        proof {
            assert(ints(self.pos@) =~= seq![0int]);
        }
    }

    /// The address of the client.
    pub fn addr(&self) -> (addr: u128)
        ensures
            addr == self.client(),
    {
        self.addr
    }

    /// The arena.
    pub fn buf(&self) -> (buf: &Bytes)
        ensures
            *buf == self.arena(),
    {
        &self.buf
    }

    /// The position table: offset 0, then the end of each line found so far.
    pub fn positions(&self) -> (table: &Vec<usize>)
        ensures
            ints(table@) == self.scan().table,
    {
        &self.pos
    }

    /// Whether the empty line that closes the header block has been read.
    pub fn is_framed(&self) -> (framed: bool)
        ensures
            framed == self.scan().done,
    {
        self.done
    }

    /// Where the header block ends and the body starts, once that is known.
    pub fn body_start(&self) -> (start: Option<usize>)
        requires
            self.wf(),
        ensures
            match start {
                Some(b) => boundary(self.scan()) == Some(b as int) && b <= self.content().len(),
                None => boundary(self.scan()) is None,
            },
    {
        proof {
            self.lemma_wf();
        }
        if self.done {
            let len = self.buf.len();
            let last = self.pos[self.pos.len() - 1];
            assert(last as int == self.scan().table.last());
            assert(last + 2 <= len);
            Some(last + 2)
        } else {
            None
        }
    }

    /// The scratch space for the next read: at least `MIN_FREE` bytes behind
    /// what has been read. Fails, and changes nothing, where the arena would
    /// have to grow beyond what an offset can address.
    pub fn free_space(&mut self) -> (space: Result<&mut [u8], GlacierError>)
        requires
            old(self).wf(),
        ensures
            final(self).wf(),
            final(self).client() == old(self).client(),
            final(self).content() == old(self).content(),
            final(self).scan() == old(self).scan(),
            match space {
                Ok(sp) => {
                    &&& fit(
                        old(self).arena().cap(),
                        old(self).content().len(),
                        MIN_FREE as nat,
                    ) <= usize::MAX
                    &&& sp@.len() + old(self).content().len() == fit(
                        old(self).arena().cap(),
                        old(self).content().len(),
                        MIN_FREE as nat,
                    )
                    &&& final(self).arena().spare() == final(sp)@
                },
                Err(e) => {
                    &&& fit(
                        old(self).arena().cap(),
                        old(self).content().len(),
                        MIN_FREE as nat,
                    ) > usize::MAX
                    &&& e == GlacierError::OkErr(Kind::InServer)
                    &&& final(self).arena() == old(self).arena()
                },
            },
    {
        self.buf.free_space()
    }

    /// Runs the field extractor over the lines that the scanner found, and
    /// hands the arena over to the request.
    pub fn to_req(self) -> (req: Result<OneRequest, GlacierError>)
        requires
            self.wf(),
        ensures
            match req {
                Ok(r) => {
                    &&& extract(self.content(), self.scan(), self.client()) == Ok::<
                        RequestView,
                        GlacierError,
                    >(r@)
                    &&& r.wf()
                    &&& r.arena() == self.arena()
                },
                Err(e) => extract(self.content(), self.scan(), self.client()) == Err::<
                    RequestView,
                    GlacierError,
                >(e),
            },
    {
        proof {
            self.lemma_wf();
        }
        let n = self.pos.len();
        if !self.done || n < 2 {
            return Err(GlacierError::Option);
        }
        let ghost s = self.buf@;
        let ghost table = ints(self.pos@);
        proof {
            lemma_table_lines(self.scan(), s, s.len() as int);
            assert(table[0] == self.pos[0] as int && table[1] == self.pos[1] as int);
            assert(is_line(s, table[0], table[1]));
        }
        let line_pos = match RequestLine::parse(&self.buf, [self.pos[0], self.pos[1]]) {
            Ok(lp) => lp,
            Err(e) => {
                return Err(e);
            },
        };
        proof {
            lemma_request_line_spans(s, table[0], table[1]);
        }
        let headers_pos = match parse_headers(&self.buf, &self.pos) {
            Ok(hs) => hs,
            Err(e) => {
                return Err(e);
            },
        };
        let ghost view = RequestView {
            bytes: s,
            line: ints(line_pos@),
            headers: header_ints(headers_pos@),
            addr: self.addr,
        };
        proof {
            let want = Seq::new(
                (table.len() - 2) as nat,
                |j: int| header_spans(s, table[j + 1], table[j + 2])->0,
            );
            assert(view.headers =~= want);
            assert(table.last() == table[n - 1]);
            assert(table.last() + 2 <= s.len());
            if n == 2 {
                assert(view.head_end() == table[1]);
            } else {
                assert(view.headers.last() == ints(headers_pos@[n - 3]@));
                assert(view.head_end() == table[n - 1]);
            }
            assert(view.valid());
        }
        Ok(OneRequest::new(self.buf, ReqInfo { line_pos, headers_pos }, self.addr))
    }

    /// Takes note of what became of the read into the space that `free_space`
    /// handed out. On data, the bytes join the content and the scanner goes
    /// over them; `Ok(true)` says that the header block is complete, `Ok(false)`
    /// that another read is due. Everything else ends the connection: the end of
    /// the stream, a timeout, a failure of the transport, or a count of bytes
    /// that the free space could not hold.
    pub fn on_read(&mut self, event: ReadEvent) -> (step: Result<bool, GlacierError>)
        requires
            old(self).wf(),
        ensures
            final(self).wf(),
            final(self).client() == old(self).client(),
            match event {
                ReadEvent::Data(n) if 0 < n <= old(self).arena().spare().len() => {
                    &&& (final(self).content(), final(self).scan()) == feed(
                        old(self).content(),
                        old(self).scan(),
                        old(self).arena().spare().take(n as int),
                    )
                    &&& step == Ok::<bool, GlacierError>(final(self).scan().done)
                    &&& final(self).arena().cap() == old(self).arena().cap()
                },
                ReadEvent::Data(n) => {
                    &&& *final(self) == *old(self)
                    &&& step == Err::<bool, GlacierError>(
                        GlacierError::OkErr(
                            if n == 0 {
                                Kind::EofErr
                            } else {
                                Kind::InServer
                            },
                        ),
                    )
                },
                ReadEvent::Eof => *final(self) == *old(self) && step == Err::<bool, GlacierError>(
                    GlacierError::OkErr(Kind::EofErr),
                ),
                ReadEvent::TimedOut => *final(self) == *old(self) && step == Err::<
                    bool,
                    GlacierError,
                >(GlacierError::OkErr(Kind::TimeOutErr)),
                ReadEvent::Failed => *final(self) == *old(self) && step == Err::<
                    bool,
                    GlacierError,
                >(GlacierError::OkErr(Kind::IOErr)),
            },
    {
        let n = match event {
            ReadEvent::Data(n) => n,
            ReadEvent::Eof => {
                return Err(GlacierError::OkErr(Kind::EofErr));
            },
            ReadEvent::TimedOut => {
                return Err(GlacierError::OkErr(Kind::TimeOutErr));
            },
            ReadEvent::Failed => {
                return Err(GlacierError::OkErr(Kind::IOErr));
            },
        };
        if n == 0 {
            return Err(GlacierError::OkErr(Kind::EofErr));
        }
        proof {
            self.buf.lemma_layout();
        }
        let from = self.buf.len();
        if n > self.buf.capacity() - from {
            return Err(GlacierError::OkErr(Kind::InServer));
        }
        self.buf.modify_len(n);
        let to = self.buf.len();
        let s = self.buf.as_slice();
        proof {
            let old_s = old(self).buf@;
            assert(s@.take(from as int) =~= old_s);
            assert(old_s.take(from as int) =~= old_s);
            lemma_scan_prefix(scan_start(), old_s, s@, 0, from as int);
            lemma_scan_inv(s@, from as int);
        }
        let ghost arena = self.buf;
        let mut i = from;
        while i < to
            invariant
                self.buf == arena,
                arena.wf(),
                s@ == arena@,
                from <= i <= to == s@.len(),
                self.scan() == scan_range(old(self).scan(), s@, from as int, i as int),
                self.scan() == scan_range(scan_start(), s@, 0, i as int),
                scan_inv(self.scan(), s@, i as int),
                self.addr == old(self).addr,
            decreases to - i,
        {
            proof {
                lemma_scan_inv(s@, i + 1);
            }
            if !self.done && i >= 1 && s[i - 1] == CR && s[i] == LF {
                let last = self.pos[self.pos.len() - 1];
                assert(last as int == self.scan().table.last());
                if i + 1 - last == 2 {
                    self.done = true;
                } else {
                    let ghost before = self.pos@;
                    self.pos.push(i + 1);
                    proof {
                        assert(ints(self.pos@) =~= ints(before).push(i + 1));
                    }
                }
            }
            i = i + 1;
        }
        Ok(self.done)
    }
}

} // verus!
