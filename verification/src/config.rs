use vstd::prelude::*;

verus! {

/// What can stand for the address that a server binds to.
pub trait IntoAddr: Sized {
    /// The host and the port that the value stands for.
    spec fn addr_spec(self) -> (Seq<char>, u16);

    /// The host and the port that the value stands for.
    fn into_addr(self) -> (addr: (String, u16))
        ensures
            addr.0@ == self.addr_spec().0,
            addr.1 == self.addr_spec().1,
    ;
}

/// A port alone stands for that port on the loopback address.
impl IntoAddr for u16 {
    open spec fn addr_spec(self) -> (Seq<char>, u16) {
        ("127.0.0.1"@, self)
    }

    fn into_addr(self) -> (addr: (String, u16)) {
        ("127.0.0.1".to_owned(), self)
    }
}

/// A host and a port stand for themselves.
impl IntoAddr for (&str, u16) {
    open spec fn addr_spec(self) -> (Seq<char>, u16) {
        (self.0@, self.1)
    }

    fn into_addr(self) -> (addr: (String, u16)) {
        (self.0.to_owned(), self.1)
    }
}

} // verus!
