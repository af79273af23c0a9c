use vstd::prelude::*;

use crate::mem::{zeroed, PAGE_SIZE};

verus! {

/// Ownership handle of one guest page that is shared with the host, together
/// with the guest-side backing memory of that page. Only one handle exists per
/// physical address; giving it up is the only way back to private memory.
#[derive(Debug)]
pub struct SharedPage {
    pa: u64,
    data: Vec<u8>,
}

impl SharedPage {
    /// Physical address of the page.
    pub closed spec fn addr(&self) -> u64 {
        self.pa
    }

    /// Contents of the page.
    pub closed spec fn bytes(&self) -> Seq<u8> {
        self.data@
    }

    /// The address is page aligned and the backing memory is one page long.
    pub open spec fn inv(&self) -> bool {
        &&& self.addr() % (PAGE_SIZE as u64) == 0
        &&& self.bytes().len() == PAGE_SIZE
    }

    /// A zero-filled handle for the page at `pa`.
    pub fn new(pa: u64) -> (r: Self)
        requires
            pa % (PAGE_SIZE as u64) == 0,
        ensures
            r.inv(),
            r.addr() == pa,
            r.bytes() == Seq::new(PAGE_SIZE as nat, |i: int| 0u8),
    {
        SharedPage { pa, data: zeroed(PAGE_SIZE) }
    }

    /// Physical address of the page.
    pub fn pa(&self) -> (r: u64)
        ensures
            r == self.addr(),
    {
        self.pa
    }

    /// Contents of the page.
    pub fn data(&self) -> (r: &[u8])
        ensures
            r@ == self.bytes(),
    {
        self.data.as_slice()
    }

    /// Stores `src` into the page starting at byte `offset`.
    pub fn write_bytes(&mut self, offset: usize, src: &[u8])
        requires
            old(self).inv(),
            offset + src@.len() <= PAGE_SIZE,
        ensures
            final(self).inv(),
            final(self).addr() == old(self).addr(),
            final(self).bytes() == old(self).bytes().subrange(0, offset as int) + src@
                + old(self).bytes().subrange(offset + src@.len(), PAGE_SIZE as int),
    {
        let n = src.len();
        let mut i: usize = 0;
        while i < n
            invariant
                i <= n,
                n == src@.len(),
                offset + n <= PAGE_SIZE,
                self.data@.len() == PAGE_SIZE,
                self.pa == old(self).pa,
                forall|k: int| 0 <= k < offset ==> self.data@[k] == old(self).data@[k],
                forall|k: int| 0 <= k < i ==> self.data@[offset + k] == src@[k],
                forall|k: int| offset + i <= k < PAGE_SIZE ==> self.data@[k] == old(self).data@[k],
            decreases n - i,
        {
            self.data.set(offset + i, src[i]);
            i = i + 1;
        }
        assert(self.data@ =~= old(self).data@.subrange(0, offset as int) + src@
            + old(self).data@.subrange(offset + n, PAGE_SIZE as int));
    }

    /// Copies the first `dst.len()` bytes of the page into `dst`.
    pub fn read_bytes(&self, dst: &mut [u8])
        requires
            self.inv(),
            old(dst)@.len() <= PAGE_SIZE,
        ensures
            final(dst)@ == self.bytes().subrange(0, old(dst)@.len() as int),
    {
        let n = dst.len();
        let mut i: usize = 0;
        while i < n
            invariant
                i <= n,
                n == dst@.len(),
                n <= PAGE_SIZE,
                self.data@.len() == PAGE_SIZE,
                forall|k: int| 0 <= k < i ==> dst@[k] == self.data@[k],
            decreases n - i,
        {
            dst[i] = self.data[i];
            i = i + 1;
        }
        assert(dst@ =~= self.data@.subrange(0, n as int));
    }
}

/// The set of guest pages currently shared with the host: a list of handles
/// with distinct addresses, seen as a map from physical address to contents.
pub struct SharedPageRegistry {
    entries: Vec<SharedPage>,
    pages: Ghost<Map<u64, Seq<u8>>>,
}

impl SharedPageRegistry {
    /// The shared pages by physical address.
    pub closed spec fn view(&self) -> Map<u64, Seq<u8>> {
        self.pages@
    }

    pub closed spec fn wf(&self) -> bool {
        &&& forall|i: int| 0 <= i < self.entries@.len() ==> (#[trigger] self.entries@[i]).inv()
        &&& forall|i: int, j: int|
            0 <= i < j < self.entries@.len() ==> (#[trigger] self.entries@[i]).pa
                != (#[trigger] self.entries@[j]).pa
        &&& forall|i: int|
            0 <= i < self.entries@.len() ==> self.pages@.contains_key(
                (#[trigger] self.entries@[i]).pa,
            ) && self.pages@[self.entries@[i].pa] == self.entries@[i].data@
        &&& forall|pa: u64|
            #[trigger] self.pages@.contains_key(pa) ==> exists|i: int|
                0 <= i < self.entries@.len() && (#[trigger] self.entries@[i]).pa == pa
    }

    /// Every shared page is page aligned and one page long.
    pub proof fn lemma_pages_ok(&self)
        requires
            self.wf(),
        ensures
            pages_ok(self@),
    {
        assert forall|pa: u64| #[trigger] self@.contains_key(pa) implies pa % (PAGE_SIZE as u64)
            == 0 && self@[pa].len() == PAGE_SIZE by {
            let i = choose|i: int| 0 <= i < self.entries@.len() && (#[trigger] self.entries@[i]).pa == pa;
            assert(self.entries@[i].inv());
        }
    }

    /// An empty registry.
    pub fn new() -> (r: Self)
        ensures
            r.wf(),
            r@ == Map::<u64, Seq<u8>>::empty(),
    {
        SharedPageRegistry { entries: Vec::new(), pages: Ghost(Map::empty()) }
    }

    /// Records the newly shared page `page` at address `pa`.
    pub fn push(&mut self, pa: u64, page: SharedPage)
        requires
            old(self).wf(),
            page.inv(),
            page.addr() == pa,
            !old(self)@.contains_key(pa),
        ensures
            final(self).wf(),
            final(self)@ == old(self)@.insert(pa, page.bytes()),
    {
        let ghost old_entries = self.entries@;
        let ghost bytes = page.data@;
        proof {
            assert forall|i: int| 0 <= i < old_entries.len() implies (#[trigger] old_entries[i]).pa
                != pa by {
                assert(self.pages@.contains_key(old_entries[i].pa));
            }
        }
        self.entries.push(page);
        self.pages = Ghost(self.pages@.insert(pa, bytes));
        proof {
            let n = old_entries.len() as int;
            assert(self.entries@[n].pa == pa);
            assert forall|q: u64| #[trigger] self.pages@.contains_key(q) implies exists|i: int|
                0 <= i < self.entries@.len() && (#[trigger] self.entries@[i]).pa == q by {
                if q == pa {
                    assert(self.entries@[n].pa == q);
                } else {
                    assert(old(self).pages@.contains_key(q));
                    let i = choose|i: int| 0 <= i < old_entries.len() && (#[trigger] old_entries[i]).pa == q;
                    assert(self.entries@[i] == old_entries[i]);
                }
            }
        }
    }

    /// Whether the page at `pa` is shared.
    pub fn contains(&self, pa: u64) -> (r: bool)
        requires
            self.wf(),
        ensures
            r == self@.contains_key(pa),
    {
        match self.find(pa) {
            Some(_) => true,
            None => false,
        }
    }

    fn find(&self, pa: u64) -> (r: Option<usize>)
        requires
            self.wf(),
        ensures
            match r {
                Some(i) => i < self.entries@.len() && self.entries@[i as int].pa == pa,
                None => !self@.contains_key(pa),
            },
    {
        let mut i: usize = 0;
        while i < self.entries.len()
            invariant
                i <= self.entries@.len(),
                forall|k: int| 0 <= k < i ==> (#[trigger] self.entries@[k]).pa != pa,
            decreases self.entries@.len() - i,
        {
            if self.entries[i].pa == pa {
                return Some(i);
            }
            i = i + 1;
        }
        None
    }

    /// The handle of the page at `pa`, if it is shared.
    pub fn get(&self, pa: u64) -> (r: Option<&SharedPage>)
        requires
            self.wf(),
        ensures
            self@.contains_key(pa) ==> (r matches Some(p) && p.inv() && p.addr() == pa && p.bytes() == self@[pa]),
            !self@.contains_key(pa) ==> r is None,
    {
        match self.find(pa) {
            Some(i) => {
                proof {
                    assert(self.entries@[i as int].inv());
                }
                Some(&self.entries[i])
            },
            None => None,
        }
    }

    /// Removes the page at `pa` and hands back its handle, or nothing if no
    /// page at `pa` is shared.
    pub fn pop(&mut self, pa: u64) -> (r: Option<SharedPage>)
        requires
            old(self).wf(),
        ensures
            final(self).wf(),
            old(self)@.contains_key(pa) ==> (r matches Some(p) && p.inv() && p.addr() == pa
                && p.bytes() == old(self)@[pa] && final(self)@ == old(self)@.remove(pa)),
            !old(self)@.contains_key(pa) ==> r is None && final(self)@ == old(self)@,
    {
        match self.find(pa) {
            None => None,
            Some(i) => {
                let ghost old_entries = self.entries@;
                let page = self.entries.remove(i);
                self.pages = Ghost(self.pages@.remove(pa));
                proof {
                    assert(old_entries[i as int].inv());
                    assert forall|k: int| 0 <= k < self.entries@.len() implies #[trigger] self.entries@[k]
                        == (if k < i { old_entries[k] } else { old_entries[k + 1] }) by {}
                    assert forall|k: int| 0 <= k < self.entries@.len() implies (#[trigger] self.entries@[k]).pa
                        != pa by {
                        if k < i {
                            assert(old_entries[k].pa != old_entries[i as int].pa);
                        } else {
                            assert(old_entries[k + 1].pa != old_entries[i as int].pa);
                        }
                    }
                    assert forall|q: u64| #[trigger] self.pages@.contains_key(q) implies exists|k: int|
                        0 <= k < self.entries@.len() && (#[trigger] self.entries@[k]).pa == q by {
                        let j = choose|j: int| 0 <= j < old_entries.len() && (#[trigger] old_entries[j]).pa == q;
                        if j < i {
                            assert(self.entries@[j].pa == q);
                        } else {
                            assert(j != i);
                            assert(self.entries@[j - 1].pa == q);
                        }
                    }
                    assert forall|a: int, b: int|
                        0 <= a < b < self.entries@.len() implies (#[trigger] self.entries@[a]).pa
                            != (#[trigger] self.entries@[b]).pa by {
                        let a2 = if a < i { a } else { a + 1 };
                        let b2 = if b < i { b } else { b + 1 };
                        assert(old_entries[a2].pa != old_entries[b2].pa);
                    }
                }
                Some(page)
            },
        }
    }
}

/// Every page of `m` is page aligned and one page long.
pub open spec fn pages_ok(m: Map<u64, Seq<u8>>) -> bool {
    forall|pa: u64| #[trigger] m.contains_key(pa) ==> pa % (PAGE_SIZE as u64) == 0 && m[pa].len() == PAGE_SIZE
}

/// Recording a page and then removing it again hands back the page that was
/// recorded and leaves the registry as it was before; removing a page that was
/// never recorded finds nothing.
pub proof fn lemma_push_pop(m: Map<u64, Seq<u8>>, pa: u64, bytes: Seq<u8>)
    requires
        !m.contains_key(pa),
    ensures
        m.insert(pa, bytes).contains_key(pa),
        m.insert(pa, bytes)[pa] == bytes,
        !m.insert(pa, bytes).remove(pa).contains_key(pa),
        m.insert(pa, bytes).remove(pa) == m,
{
    assert(m.insert(pa, bytes).remove(pa) =~= m);
}

} // verus!
