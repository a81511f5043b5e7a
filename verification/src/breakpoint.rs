//! The breakpoint store: a mapping from breakpoint address to the saved
//! original byte.
//!
//! The store owns the "what should be patched" state independently of any
//! running traced process.  A breakpoint's `orig_byte` is a placeholder
//! (zero) until a trap has actually been installed into a live process;
//! installation records the byte that the patch displaced, so that the
//! byte can be restored when the breakpoint is stepped over.  Breakpoints
//! persist across runs and are re-installed into each new child.

use vstd::prelude::*;

verus! {

/// One breakpoint: a virtual address in the target's text segment and
/// the byte that occupied it before the trap was patched in.
#[derive(Clone, Copy, Debug)]
pub struct Breakpoint {
    pub addr: usize,
    pub orig_byte: u8,
}

/// All breakpoints of a session, in the order they were first set.
pub struct BreakpointStore {
    items: Vec<Breakpoint>,
}

impl View for BreakpointStore {
    type V = Seq<Breakpoint>;

    closed spec fn view(&self) -> Seq<Breakpoint> {
        self.items@
    }
}

impl BreakpointStore {
    /// Each address appears at most once.
    pub open spec fn wf(&self) -> bool {
        forall|i: int, j: int|
            0 <= i < j < self@.len() ==> self@[i].addr != self@[j].addr
    }

    /// Whether some breakpoint is set at `addr`.
    pub open spec fn contains_addr(&self, addr: usize) -> bool {
        exists|i: int| 0 <= i < self@.len() && self@[i].addr == addr
    }

    /// The position of the breakpoint at `addr` (meaningful when present).
    pub open spec fn index_of(&self, addr: usize) -> int {
        choose|i: int| 0 <= i < self@.len() && self@[i].addr == addr
    }

    /// The saved original byte of the breakpoint at `addr`.
    pub open spec fn orig_byte_of(&self, addr: usize) -> u8 {
        self@[self.index_of(addr)].orig_byte
    }

    proof fn lemma_index_unique(&self, addr: usize, i: int)
        requires
            self.wf(),
            0 <= i < self@.len(),
            self@[i].addr == addr,
        ensures
            self.index_of(addr) == i,
            self.contains_addr(addr),
    {
        assert(self.contains_addr(addr));
        let k = self.index_of(addr);
        if k != i {
            if k < i {
                assert(self@[k].addr != self@[i].addr);
            } else {
                assert(self@[i].addr != self@[k].addr);
            }
        }
    }

    pub fn new() -> (r: BreakpointStore)
        ensures
            r.wf(),
            r@.len() == 0,
    {
        BreakpointStore { items: Vec::new() }
    }

    pub fn len(&self) -> (r: usize)
        ensures
            r == self@.len(),
    {
        self.items.len()
    }

    /// The address of the `i`-th breakpoint, for installation sweeps.
    pub fn addr_at(&self, i: usize) -> (r: usize)
        requires
            i < self@.len(),
        ensures
            r == self@[i as int].addr,
    {
        self.items[i].addr
    }

    /// Sets a breakpoint at `addr`.  Setting is idempotent per address:
    /// re-setting an existing address resets its entry to the placeholder
    /// original byte; a new address is appended.  No other entry changes.
    pub fn set(&mut self, addr: usize) -> (index: usize)
        requires
            old(self).wf(),
            old(self)@.len() < usize::MAX,
        ensures
            final(self).wf(),
            final(self).contains_addr(addr),
            final(self).orig_byte_of(addr) == 0u8,
            old(self).contains_addr(addr) ==> final(self)@ == old(self)@.update(
                old(self).index_of(addr),
                Breakpoint { addr, orig_byte: 0u8 },
            ),
            !old(self).contains_addr(addr) ==> final(self)@ == old(self)@.push(
                Breakpoint { addr, orig_byte: 0u8 },
            ),
            forall|a: usize|
                a != addr ==> final(self).contains_addr(a) == old(self).contains_addr(a),
            forall|a: usize|
                a != addr && old(self).contains_addr(a) ==> final(self).orig_byte_of(a) == old(
                    self,
                ).orig_byte_of(a),
            index < final(self)@.len(),
            final(self)@[index as int].addr == addr,
    {
        let ghost pre = *self;
        let n = self.items.len();
        let mut i: usize = 0;
        while i < n
            invariant
                pre == *old(self),
                pre.wf(),
                n == self.items.len(),
                i <= n,
                *self == pre,
                forall|k: int| 0 <= k < i ==> self@[k].addr != addr,
            decreases n - i,
        {
            if self.items[i].addr == addr {
                self.items[i] = Breakpoint { addr, orig_byte: 0 };
                proof {
                    pre.lemma_index_unique(addr, i as int);
                    assert(self@ == pre@.update(i as int, Breakpoint { addr, orig_byte: 0u8 }));
                    assert(forall|k: int| 0 <= k < self@.len() ==> self@[k].addr == pre@[k].addr);
                    assert(self.wf());
                    self.lemma_index_unique(addr, i as int);
                    assert forall|a: usize| a != addr implies self.contains_addr(a)
                        == pre.contains_addr(a) by {
                        if pre.contains_addr(a) {
                            let k = pre.index_of(a);
                            assert(self@[k].addr == a);
                        }
                        if self.contains_addr(a) {
                            let k = self.index_of(a);
                            assert(pre@[k].addr == a);
                        }
                    }
                    assert forall|a: usize| a != addr && pre.contains_addr(a) implies self
                        .orig_byte_of(a) == pre.orig_byte_of(a) by {
                        let k = pre.index_of(a);
                        assert(self@[k].addr == a);
                        self.lemma_index_unique(a, k);
                    }
                }
                return i;
            }
            i += 1;
        }
        self.items.push(Breakpoint { addr, orig_byte: 0 });
        proof {
            let m = self@.len() - 1;
            assert(self@[m].addr == addr);
            assert(forall|k: int| 0 <= k < m ==> self@[k].addr == pre@[k].addr);
            assert(self.wf());
            self.lemma_index_unique(addr, m);
            assert forall|a: usize| a != addr implies self.contains_addr(a) == pre.contains_addr(
                a,
            ) by {
                if pre.contains_addr(a) {
                    let k = pre.index_of(a);
                    assert(self@[k].addr == a);
                }
                if self.contains_addr(a) {
                    let k = self.index_of(a);
                    assert(pre@[k].addr == a);
                }
            }
            assert forall|a: usize| a != addr && pre.contains_addr(a) implies self.orig_byte_of(a)
                == pre.orig_byte_of(a) by {
                let k = pre.index_of(a);
                assert(self@[k].addr == a);
                self.lemma_index_unique(a, k);
            }
        }
        n
    }

    /// Records the byte that installing the trap at the `i`-th breakpoint
    /// displaced.
    pub fn record_orig(&mut self, i: usize, b: u8) -> (addr: usize)
        requires
            old(self).wf(),
            i < old(self)@.len(),
        ensures
            final(self).wf(),
            addr == old(self)@[i as int].addr,
            final(self)@ == old(self)@.update(
                i as int,
                Breakpoint { addr: old(self)@[i as int].addr, orig_byte: b },
            ),
            forall|a: usize| final(self).contains_addr(a) == old(self).contains_addr(a),
            final(self).orig_byte_of(addr) == b,
            forall|a: usize|
                a != addr && old(self).contains_addr(a) ==> final(self).orig_byte_of(a) == old(
                    self,
                ).orig_byte_of(a),
    {
        let ghost pre = *self;
        let addr = self.items[i].addr;
        self.items[i] = Breakpoint { addr, orig_byte: b };
        proof {
            assert(self@ == pre@.update(i as int, Breakpoint { addr, orig_byte: b }));
            assert(forall|k: int| 0 <= k < self@.len() ==> self@[k].addr == pre@[k].addr);
            assert(self.wf());
            assert forall|a: usize| self.contains_addr(a) == pre.contains_addr(a) by {
                if pre.contains_addr(a) {
                    let k = pre.index_of(a);
                    assert(self@[k].addr == a);
                }
                if self.contains_addr(a) {
                    let k = self.index_of(a);
                    assert(pre@[k].addr == a);
                }
            }
            self.lemma_index_unique(addr, i as int);
            assert forall|a: usize| a != addr && pre.contains_addr(a) implies self.orig_byte_of(a)
                == pre.orig_byte_of(a) by {
                let k = pre.index_of(a);
                assert(self@[k].addr == a);
                self.lemma_index_unique(a, k);
            }
        }
        addr
    }

    /// Looks up the breakpoint at `addr`, if one is set.
    pub fn get(&self, addr: usize) -> (r: Option<Breakpoint>)
        requires
            self.wf(),
        ensures
            r is Some <==> self.contains_addr(addr),
            r matches Some(bp) ==> bp.addr == addr && bp.orig_byte == self.orig_byte_of(addr),
    {
        let n = self.items.len();
        let mut i: usize = 0;
        while i < n
            invariant
                self.wf(),
                n == self.items.len(),
                i <= n,
                forall|k: int| 0 <= k < i ==> self@[k].addr != addr,
            decreases n - i,
        {
            if self.items[i].addr == addr {
                proof {
                    self.lemma_index_unique(addr, i as int);
                }
                return Some(self.items[i]);
            }
            i += 1;
        }
        None
    }
}

} // verus!
