use crate::error::{GlacierError, Kind};
use vstd::prelude::*;
use vstd::slice::slice_subrange;
use vstd::string::*;
use vstd::utf8::{encode_utf8, valid_utf8};

verus! {

/// Carriage return.
pub const CR: u8 = 13;

/// Line feed.
pub const LF: u8 = 10;

/// The least free space that a read is offered.
pub const MIN_FREE: usize = 32;

/// Capacity after one growth: twice the old one, and `MIN_FREE` from nothing.
pub open spec fn grown(cap: nat) -> nat {
    if cap == 0 {
        MIN_FREE as nat
    } else {
        2 * cap
    }
}

/// Capacity after as many growths as it takes to have `need` bytes free behind
/// `len` written ones.
pub open spec fn fit(cap: nat, len: nat, need: nat) -> nat
    decreases
        (if cap >= len + need {
            0
        } else {
            len + need - cap
        }),
{
    if cap >= len + need {
        cap
    } else {
        fit(grown(cap), len, need)
    }
}

/// A region with `need` bytes free does not grow: once the capacity has
/// reached what the requests of a connection take, it stays.
pub proof fn lemma_fit_steady(cap: nat, len: nat, need: nat)
    requires
        cap >= len + need,
    ensures
        fit(cap, len, need) == cap,
{
}

/// Growing never ends below the capacity it started from.
pub proof fn lemma_fit_at_least(cap: nat, len: nat, need: nat)
    ensures
        fit(cap, len, need) >= cap,
        fit(cap, len, need) >= len + need,
    decreases
        (if cap >= len + need {
            0
        } else {
            len + need - cap
        }),
{
    if cap < len + need {
        lemma_fit_at_least(grown(cap), len, need);
    }
}

/// From a capacity below `MIN_FREE`, growing stays small.
pub proof fn lemma_fit_small(cap: nat, len: nat)
    requires
        len <= cap < MIN_FREE,
    ensures
        fit(cap, len, MIN_FREE as nat) <= 4 * MIN_FREE,
    decreases MIN_FREE - cap,
{
    let need = MIN_FREE as nat;
    assert(fit(cap, len, need) == fit(grown(cap), len, need));
    if cap == 0 {
        assert(fit(need, len, need) == need);
    } else if 2 * cap >= MIN_FREE {
        if 2 * cap < len + MIN_FREE {
            assert(fit(4 * cap, len, need) == 4 * cap);
            assert(fit(2 * cap, len, need) == fit(grown(2 * cap), len, need));
        } else {
            assert(fit(2 * cap, len, need) == 2 * cap);
        }
    } else {
        lemma_fit_small(2 * cap, len);
    }
}

/// The bytes `s` with `value` written over what stood from offset `at` on.
pub open spec fn overwritten(s: Seq<u8>, at: int, value: Seq<u8>) -> Seq<u8> {
    s.subrange(0, at) + value + s.subrange(at + value.len(), s.len() as int)
}

/// Whether the two bytes at `p` and `p + 1` end a line.
pub open spec fn is_crlf_at(s: Seq<u8>, p: int) -> bool {
    0 <= p && p + 1 < s.len() && s[p] == CR && s[p + 1] == LF
}

/// Whether `s` ends with an empty line behind a line end.
pub open spec fn ends_with_blank_line(s: Seq<u8>) -> bool {
    s.len() >= 4 && is_crlf_at(s, s.len() - 4) && is_crlf_at(s, s.len() - 2)
}

/// A growable byte arena: one region of `capacity` bytes of which the first
/// `len` are written and the rest is scratch space for the next read.
pub struct Bytes {
    data: Vec<u8>,
    len: usize,
}

impl View for Bytes {
    type V = Seq<u8>;

    /// The written bytes.
    closed spec fn view(&self) -> Seq<u8> {
        self.data@.subrange(0, self.len as int)
    }
}

impl Bytes {
    /// The written bytes lie inside the region.
    pub closed spec fn wf(&self) -> bool {
        self.len <= self.data@.len()
    }

    /// Size of the whole region, written and free.
    pub closed spec fn cap(&self) -> nat {
        self.data@.len()
    }

    /// The free region behind the written bytes, as it stands.
    pub closed spec fn spare(&self) -> Seq<u8> {
        self.data@.subrange(self.len as int, self.data@.len() as int)
    }

    /// Written and free bytes make up the region.
    pub proof fn lemma_layout(&self)
        requires
            self.wf(),
        ensures
            self@.len() + self.spare().len() == self.cap(),
    {
    }

    /// Allocates a region of `cap` bytes, none of them written.
    pub fn with_capacity(cap: usize) -> (b: Bytes)
        ensures
            b.wf(),
            b@ == Seq::<u8>::empty(),
            b.cap() == cap,
    {
        let data = vec![0u8; cap];
        Bytes { data, len: 0 }
    }

    /// Number of written bytes.
    pub fn len(&self) -> (n: usize)
        requires
            self.wf(),
        ensures
            n == self@.len(),
    {
        self.len
    }

    /// Size of the whole region.
    pub fn capacity(&self) -> (n: usize)
        requires
            self.wf(),
        ensures
            n == self.cap(),
            self@.len() <= n,
    {
        self.data.len()
    }

    /// Grows the region once. The written bytes, and what the scratch space
    /// held, stay where they are.
    pub fn grow(&mut self)
        requires
            old(self).wf(),
            grown(old(self).cap()) <= usize::MAX,
        ensures
            final(self).wf(),
            final(self)@ == old(self)@,
            final(self).cap() == grown(old(self).cap()),
            final(self).spare().take(old(self).spare().len() as int) == old(self).spare(),
    {
        let cap = self.data.len();
        let new_cap = if cap == 0 {
            MIN_FREE
        } else {
            2 * cap
        };
        self.data.resize(new_cap, 0u8);
        proof {
            assert(self.data@.subrange(0, cap as int) == old(self).data@);
            assert(self@ =~= old(self)@);
            assert(self.spare().take(old(self).spare().len() as int) =~= old(self).spare());
        }
    }

    /// The written bytes.
    pub fn as_slice(&self) -> (s: &[u8])
        requires
            self.wf(),
        ensures
            s@ == self@,
    {
        slice_subrange(self.data.as_slice(), 0, self.len)
    }

    /// The written bytes, to be overwritten in place. What the caller leaves in
    /// the slice is what is written afterwards, and nothing else changes. (A
    /// slice keeps its length, so the condition below always holds.)
    pub fn as_slice_mut(&mut self) -> (s: &mut [u8])
        requires
            old(self).wf(),
        ensures
            s@ == old(self)@,
            final(self).cap() + s@.len() == old(self).cap() + final(s)@.len(),
            final(s)@.len() == s@.len() ==> {
                &&& final(self).wf()
                &&& final(self)@ == final(s)@
                &&& final(self).spare() == old(self).spare()
            },
    {
        let (head, _) = self.data.as_mut_slice().split_at_mut(self.len);
        head
    }

    /// Grows the region until at least `MIN_FREE` bytes are free.
    fn make_room(&mut self)
        requires
            old(self).wf(),
            fit(old(self).cap(), old(self)@.len(), MIN_FREE as nat) <= usize::MAX,
        ensures
            final(self).wf(),
            final(self)@ == old(self)@,
            final(self).cap() == fit(old(self).cap(), old(self)@.len(), MIN_FREE as nat),
            final(self).cap() >= final(self)@.len() + MIN_FREE,
            final(self).spare().take(old(self).spare().len() as int) == old(self).spare(),
    {
        proof {
            old(self).lemma_layout();
            assert(old(self).spare().take(old(self).spare().len() as int) =~= old(self).spare());
        }
        while self.data.len() - self.len < MIN_FREE
            invariant
                old(self).wf(),
                self.wf(),
                self@ == old(self)@,
                self.cap() >= old(self).cap(),
                fit(self.cap(), self@.len(), MIN_FREE as nat) == fit(
                    old(self).cap(),
                    old(self)@.len(),
                    MIN_FREE as nat,
                ),
                fit(old(self).cap(), old(self)@.len(), MIN_FREE as nat) <= usize::MAX,
                self.spare().take(old(self).spare().len() as int) == old(self).spare(),
            decreases
                (if self.cap() >= self@.len() + MIN_FREE {
                    0
                } else {
                    self@.len() + MIN_FREE - self.cap()
                }),
        {
            proof {
                self.lemma_layout();
                lemma_fit_at_least(grown(self.cap()), self@.len(), MIN_FREE as nat);
            }
            let ghost before = *self;
            self.grow();
            proof {
                old(self).lemma_layout();
                before.lemma_layout();
                self.lemma_layout();
                let k = old(self).spare().len() as int;
                let m = before.spare().len() as int;
                assert(self.spare().take(k) =~= self.spare().take(m).take(k));
            }
        }
    }

    /// Exactly `MIN_FREE` bytes of scratch space behind the written bytes, for
    /// the next read. Grows the region first where less is free.
    pub fn get_32_space(&mut self) -> (space: &mut [u8])
        requires
            old(self).wf(),
            fit(old(self).cap(), old(self)@.len(), MIN_FREE as nat) <= usize::MAX,
        ensures
            final(self).wf(),
            final(self)@ == old(self)@,
            space@.len() == MIN_FREE,
            final(space)@.len() <= final(self).spare().len(),
            final(self).spare().take(final(space)@.len() as int) == final(space)@,
            final(self).cap() + MIN_FREE == fit(
                old(self).cap(),
                old(self)@.len(),
                MIN_FREE as nat,
            ) + final(space)@.len(),
    {
        self.make_room();
        proof {
            self.lemma_layout();
        }
        let (_, tail) = self.data.as_mut_slice().split_at_mut(self.len);
        let (space, _) = tail.split_at_mut(MIN_FREE);
        space
    }

    /// All the scratch space behind the written bytes, for the next read: at
    /// least `MIN_FREE` bytes. Grows the region first where less is free. What
    /// the caller leaves in the slice is the scratch space afterwards.
    pub fn get_free_space(&mut self) -> (space: &mut [u8])
        requires
            old(self).wf(),
            fit(old(self).cap(), old(self)@.len(), MIN_FREE as nat) <= usize::MAX,
        ensures
            final(self).wf(),
            final(self)@ == old(self)@,
            space@.len() + old(self)@.len() == fit(
                old(self).cap(),
                old(self)@.len(),
                MIN_FREE as nat,
            ),
            space@.take(old(self).spare().len() as int) == old(self).spare(),
            final(self).spare() == final(space)@,
            final(self).cap() == final(self)@.len() + final(space)@.len(),
    {
        self.make_room();
        proof {
            self.lemma_layout();
        }
        let (_, tail) = self.data.as_mut_slice().split_at_mut(self.len);
        tail
    }

    /// True when nothing is written.
    pub fn is_empty(&self) -> (b: bool)
        requires
            self.wf(),
        ensures
            b == (self@.len() == 0),
    {
        self.len == 0
    }

    /// Forgets the written bytes and keeps the region for the next request.
    pub fn clear(&mut self)
        ensures
            final(self).wf(),
            final(self)@ == Seq::<u8>::empty(),
            final(self).cap() == old(self).cap(),
    {
        self.len = 0;
    }

    /// Declares the first `len` bytes of the scratch space written.
    pub fn modify_len(&mut self, len: usize)
        requires
            old(self).wf(),
            old(self)@.len() + len <= old(self).cap(),
        ensures
            final(self).wf(),
            final(self)@ == old(self)@ + old(self).spare().take(len as int),
            final(self).cap() == old(self).cap(),
            final(self).spare() == old(self).spare().skip(len as int),
    {
        assert(self@.len() == self.len && self.data@.len() == self.data.len());
        self.len = self.len + len;
        proof {
            assert(self@ =~= old(self)@ + old(self).spare().take(len as int));
            assert(self.spare() =~= old(self).spare().skip(len as int));
        }
    }

    /// The scratch space for the next read: at least `MIN_FREE` bytes behind
    /// the written ones, after as many growths as that takes. Fails, and
    /// changes nothing, where the region would have to grow beyond what an
    /// offset can address.
    pub fn free_space(&mut self) -> (space: Result<&mut [u8], GlacierError>)
        requires
            old(self).wf(),
        ensures
            final(self).wf(),
            final(self)@ == old(self)@,
            match space {
                Ok(sp) => {
                    &&& fit(old(self).cap(), old(self)@.len(), MIN_FREE as nat) <= usize::MAX
                    &&& sp@.len() + old(self)@.len() == fit(
                        old(self).cap(),
                        old(self)@.len(),
                        MIN_FREE as nat,
                    )
                    &&& sp@.take(old(self).spare().len() as int) == old(self).spare()
                    &&& final(self).spare() == final(sp)@
                    &&& final(self).cap() == final(self)@.len() + final(sp)@.len()
                },
                Err(e) => {
                    &&& fit(old(self).cap(), old(self)@.len(), MIN_FREE as nat) > usize::MAX
                    &&& e == GlacierError::OkErr(Kind::InServer)
                    &&& *final(self) == *old(self)
                },
            },
    {
        let cap = self.data.len();
        let len = self.len;
        proof {
            self.lemma_layout();
            lemma_fit_at_least(grown(cap as nat), len as nat, MIN_FREE as nat);
            if cap - len < MIN_FREE && cap <= usize::MAX / 2 && cap >= MIN_FREE {
                assert(fit(grown(cap as nat), len as nat, MIN_FREE as nat) == 2 * cap);
            }
            if cap < MIN_FREE {
                lemma_fit_small(cap as nat, len as nat);
            }
        }
        if cap - len < MIN_FREE && cap > usize::MAX / 2 {
            return Err(GlacierError::OkErr(Kind::InServer));
        }
        Ok(self.get_free_space())
    }

    /// Declares the first `n` bytes of the scratch space written, as after a
    /// read of `n` bytes into it. Fails, and changes nothing, where the scratch
    /// space is shorter than that.
    pub fn commit(&mut self, n: usize) -> (done: Result<(), GlacierError>)
        requires
            old(self).wf(),
        ensures
            final(self).wf(),
            final(self).cap() == old(self).cap(),
            n <= old(self).spare().len() ==> {
                &&& done is Ok
                &&& final(self)@ == old(self)@ + old(self).spare().take(n as int)
                &&& final(self).spare() == old(self).spare().skip(n as int)
            },
            n > old(self).spare().len() ==> {
                &&& done == Err::<(), GlacierError>(GlacierError::OkErr(Kind::InServer))
                &&& *final(self) == *old(self)
            },
    {
        proof {
            self.lemma_layout();
        }
        if n > self.data.len() - self.len {
            return Err(GlacierError::OkErr(Kind::InServer));
        }
        self.modify_len(n);
        Ok(())
    }

    /// Writes `value` over the written bytes from offset `at` on. Nothing moves:
    /// the bytes before and behind stay where they are. Fails, and changes
    /// nothing, where `value` would reach beyond the written bytes.
    pub fn overwrite(&mut self, at: usize, value: &[u8]) -> (done: Result<(), GlacierError>)
        requires
            old(self).wf(),
        ensures
            final(self).wf(),
            final(self).cap() == old(self).cap(),
            final(self).spare() == old(self).spare(),
            at + value@.len() <= old(self)@.len() ==> done is Ok && final(self)@ == overwritten(
                old(self)@,
                at as int,
                value@,
            ),
            at + value@.len() > old(self)@.len() ==> *final(self) == *old(self) && done == Err::<
                (),
                GlacierError,
            >(GlacierError::OkErr(Kind::InServer)),
    {
        let n = value.len();
        if at > self.len || n > self.len - at {
            return Err(GlacierError::OkErr(Kind::InServer));
        }
        let mut i: usize = 0;
        while i < n
            invariant
                i <= n == value@.len(),
                at + n <= self.len == old(self).len,
                self.data@.len() == old(self).data@.len(),
                self.len <= self.data@.len(),
                forall|k: int|
                    0 <= k < self.data@.len() ==> self.data@[k] == (if at <= k < at + i {
                        value@[k - at]
                    } else {
                        old(self).data@[k]
                    }),
            decreases n - i,
        {
            self.data.set(at + i, value[i]);
            i = i + 1;
        }
        proof {
            assert(self@ =~= overwritten(old(self)@, at as int, value@));
            assert(self.spare() =~= old(self).spare());
        }
        Ok(())
    }

    /// The written bytes as text, where they are UTF-8.
    pub fn as_str(&self) -> (text: Result<&str, GlacierError>)
        requires
            self.wf(),
        ensures
            match text {
                Ok(t) => valid_utf8(self@) && t.spec_bytes() == self@,
                Err(e) => !valid_utf8(self@) && e == GlacierError::OkErr(Kind::UTF8Error),
            },
    {
        match utf8_text(self.as_slice()) {
            Ok(t) => Ok(t),
            Err(_) => Err(GlacierError::OkErr(Kind::UTF8Error)),
        }
    }

    /// A copy of the written bytes as text, where they are UTF-8.
    pub fn to_string(&self) -> (text: Result<String, GlacierError>)
        requires
            self.wf(),
        ensures
            match text {
                Ok(t) => valid_utf8(self@) && encode_utf8(t@) == self@,
                Err(e) => !valid_utf8(self@) && e == GlacierError::OkErr(Kind::UTF8Error),
            },
    {
        match self.as_str() {
            Ok(t) => Ok(t.to_owned()),
            Err(e) => Err(e),
        }
    }

    /// The bytes before the first line end, if there is a line end.
    pub fn first_line(&self) -> (line: Option<&[u8]>)
        requires
            self.wf(),
        ensures
            match line {
                Some(l) => {
                    &&& is_crlf_at(self@, l@.len() as int)
                    &&& l@ == self@.take(l@.len() as int)
                    &&& forall|q: int| 0 <= q < l@.len() ==> !is_crlf_at(self@, q)
                },
                None => forall|q: int| !is_crlf_at(self@, q),
            },
    {
        let slice = self.as_slice();
        let n = slice.len();
        if n < 2 {
            return None;
        }
        let mut pos: usize = 0;
        while pos < n - 1
            invariant
                2 <= n == slice@.len(),
                pos <= n - 1,
                slice@ == self@,
                forall|q: int| 0 <= q < pos ==> !is_crlf_at(self@, q),
            decreases n - pos,
        {
            if slice[pos] == CR && slice[pos + 1] == LF {
                return Some(slice_subrange(slice, 0, pos));
            }
            pos = pos + 1;
        }
        None
    }

    /// Whether the written bytes end with an empty line behind a line end.
    pub fn is_end(&self) -> (b: bool)
        requires
            self.wf(),
        ensures
            b == ends_with_blank_line(self@),
    {
        if self.len < 4 {
            return false;
        }
        let s = self.as_slice();
        let n = self.len;
        s[n - 4] == CR && s[n - 3] == LF && s[n - 2] == CR && s[n - 1] == LF
    }
}

/// `core::str::Utf8Error`, which says where bytes stop being UTF-8. Nothing is
/// read from it.
#[verifier::external_type_specification]
#[verifier::external_body]
pub struct ExUtf8Error(core::str::Utf8Error);

/// `core::str::from_utf8`: the bytes as text. It succeeds exactly on UTF-8, and
/// the text it returns has the bytes it was given.
#[verifier::external_body]
fn utf8_text(bytes: &[u8]) -> (text: Result<&str, core::str::Utf8Error>)
    ensures
        text is Ok <==> valid_utf8(bytes@),
        text matches Ok(t) ==> t.spec_bytes() == bytes@,
{
    core::str::from_utf8(bytes)
}

/// Whether two slices hold the same bytes.
pub fn same_bytes(a: &[u8], b: &[u8]) -> (same: bool)
    ensures
        same == (a@ == b@),
{
    if a.len() != b.len() {
        return false;
    }
    let mut i: usize = 0;
    while i < a.len()
        invariant
            a@.len() == b@.len(),
            i <= a@.len(),
            forall|k: int| 0 <= k < i ==> a@[k] == b@[k],
        decreases a@.len() - i,
    {
        if a[i] != b[i] {
            return false;
        }
        i = i + 1;
    }
    proof {
        assert(a@ =~= b@);
    }
    true
}

/// Whether `slice` is exactly the two bytes that end a line.
pub fn is_lf(slice: &[u8]) -> (yes: bool)
    ensures
        yes == (slice@ == seq![CR, LF]),
{
    if slice.len() == 2 {
        let yes = slice[0] == CR && slice[1] == LF;
        proof {
            if yes {
                assert(slice@ =~= seq![CR, LF]);
            } else {
                assert(seq![CR, LF][0] == CR && seq![CR, LF][1] == LF);
            }
        }
        yes
    } else {
        proof {
            assert(seq![CR, LF].len() == 2);
        }
        false
    }
}

} // verus!
