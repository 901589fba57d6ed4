use crate::error::{GlacierError, Kind};
use crate::stream::request::OneRequest;
use std::collections::HashMap;
use vstd::prelude::*;

verus! {

broadcast use vstd::std_specs::hash::group_hash_axioms;

/// What the limiter remembers of one client address: when its current interval
/// began, in milliseconds, and how often it came back too soon.
#[derive(Debug, Clone, Copy, PartialEq, Eq, Structural)]
pub struct IpEntry {
    pub last_time: u128,
    pub count: usize,
}

/// What the limiter takes a client for: what it remembers of it, or a first
/// visit now.
pub open spec fn seen(entry: Option<IpEntry>, now: u128) -> IpEntry {
    match entry {
        Some(e) => e,
        None => IpEntry { last_time: now, count: 0 },
    }
}

/// The entry of a client after a request at `now` that was let through. A
/// request within `min_interval` of the start of the interval counts against
/// the client; a later one starts a new interval.
pub open spec fn visited(e: IpEntry, now: u128, min_interval: u128) -> IpEntry {
    let interval = if now >= e.last_time {
        now - e.last_time
    } else {
        0
    };
    if interval < min_interval {
        IpEntry {
            last_time: e.last_time,
            count: if e.count < usize::MAX {
                (e.count + 1) as usize
            } else {
                e.count
            },
        }
    } else {
        IpEntry { last_time: now, count: e.count }
    }
}

/// The rate-limit table: one entry for each client address that was seen.
pub struct IpTable {
    table: HashMap<u128, IpEntry>,
}

impl View for IpTable {
    type V = Map<u128, IpEntry>;

    closed spec fn view(&self) -> Map<u128, IpEntry> {
        self.table@
    }
}

impl IpTable {
    /// A table that has seen nobody.
    pub fn new() -> (table: IpTable)
        ensures
            table@ == Map::<u128, IpEntry>::empty(),
    {
        IpTable { table: HashMap::new() }
    }

    /// What the table remembers of `addr`.
    pub fn get(&self, addr: u128) -> (entry: Option<IpEntry>)
        ensures
            entry == (if self@.contains_key(addr) {
                Some(self@[addr])
            } else {
                None
            }),
    {
        match self.table.get(&addr) {
            Some(e) => Some(*e),
            None => None,
        }
    }
}

/// Limits how fast one address may come back. A client that has come back
/// within `min_interval` milliseconds more than `times` times is turned away,
/// now and from then on; every other request passes, and the table takes note
/// of it.
pub fn ip_middle(
    req: OneRequest,
    table: &mut IpTable,
    now: u128,
    min_interval: u128,
    times: usize,
) -> (passed: Result<OneRequest, GlacierError>)
    ensures
        ({
            let e = seen(
                if old(table)@.contains_key(req@.addr) {
                    Some(old(table)@[req@.addr])
                } else {
                    None
                },
                now,
            );
            if e.count > times {
                &&& passed matches Err(GlacierError::NotOkErr(info))
                &&& info.kind == Kind::InRequest
                &&& info.description@ == "requests from this address come too fast"@
                &&& final(table)@ == old(table)@
            } else {
                &&& passed == Ok::<OneRequest, GlacierError>(req)
                &&& final(table)@ == old(table)@.insert(
                    req@.addr,
                    visited(e, now, min_interval),
                )
            }
        }),
{
    let addr = req.addr();
    let e = match table.get(addr) {
        Some(e) => e,
        None => IpEntry { last_time: now, count: 0 },
    };
    if e.count > times {
        proof {
            assert(old(table)@.contains_key(addr));
        }
        return Err(GlacierError::new(Kind::InRequest, "requests from this address come too fast"));
    }
    let interval = if now >= e.last_time {
        now - e.last_time
    } else {
        0
    };
    let next = if interval < min_interval {
        IpEntry {
            last_time: e.last_time,
            count: if e.count < usize::MAX {
                e.count + 1
            } else {
                e.count
            },
        }
    } else {
        IpEntry { last_time: now, count: e.count }
    };
    table.table.insert(addr, next);
    Ok(req)
}

} // verus!
