//! Bookkeeping of the local ports handed to mock repository servers.

use vstd::prelude::*;

verus! {

/// The lowest port of the pool.
pub const FIRST_PORT: u16 = 38092;

/// The highest port of the pool.
pub const LAST_PORT: u16 = 38100;

/// The ports of a fresh pool, in the order in which they are stored; the last
/// one is handed out first.
pub open spec fn default_ports() -> Seq<u16> {
    Seq::new((LAST_PORT - FIRST_PORT + 1) as nat, |i: int| (FIRST_PORT + i) as u16)
}

/// The free ports, filled with the default ones on first use.
pub struct PoolInternal {
    pub initialized: bool,
    pub ports: Vec<u16>,
}

/// The ports that `pool` can hand out next.
pub open spec fn available(pool: PoolInternal) -> Seq<u16> {
    if pool.initialized {
        pool.ports@
    } else {
        pool.ports@ + default_ports()
    }
}

impl PoolInternal {
    /// An empty pool, not yet filled.
    pub fn new() -> (r: Self)
        ensures
            !r.initialized,
            r.ports@ == Seq::<u16>::empty(),
    {
        PoolInternal { initialized: false, ports: Vec::new() }
    }

    /// Hands out the most recently stored free port, filling the pool first if
    /// this is its first use; `None` when no port is free.
    pub fn acquire(&mut self) -> (r: Option<u16>)
        ensures
            final(self).initialized,
            available(*old(self)).len() > 0 ==> r == Some(available(*old(self)).last())
                && final(self).ports@ == available(*old(self)).drop_last(),
            available(*old(self)).len() == 0 ==> r is None && final(self).ports@ == available(
                *old(self),
            ),
    {
        if !self.initialized {
            self.initialized = true;
            let mut p: u16 = FIRST_PORT;
            let ghost start = self.ports@;
            while p <= LAST_PORT
                invariant
                    self.initialized,
                    FIRST_PORT <= p <= LAST_PORT + 1,
                    self.ports@ == start + default_ports().subrange(0, p - FIRST_PORT),
                decreases LAST_PORT + 1 - p,
            {
                self.ports.push(p);
                assert(default_ports().subrange(0, p + 1 - FIRST_PORT) =~= default_ports().subrange(
                    0,
                    p - FIRST_PORT,
                ).push(p));
                p = p + 1;
            }
            assert(default_ports().subrange(0, LAST_PORT + 1 - FIRST_PORT) =~= default_ports());
        }
        self.ports.pop()
    }

    /// Gives a port back to the pool.
    pub fn release(&mut self, port: u16)
        ensures
            final(self).initialized == old(self).initialized,
            final(self).ports@ == old(self).ports@.push(port),
    {
        self.ports.push(port);
    }
}

} // verus!
