//! A task's user address space, modelled as the set of its mapped page
//! frames: each mapped virtual page number carries its permission bits and
//! its page-sized frame of bytes. The model is the capability through which
//! all cross-address-space access goes — kernel code never follows a bare
//! user pointer; it resolves each page of a user virtual range here and
//! fails cleanly on anything unmapped or lacking the needed permission.

use vstd::arithmetic::div_mod::{lemma_fundamental_div_mod, lemma_fundamental_div_mod_converse};
use vstd::prelude::*;

verus! {

/// Bytes per page frame.
pub const PAGE_SIZE: usize = 4096;

/// Permission bit: the page may be read.
pub const PROT_READ: usize = 1;

/// Permission bit: the page may be written.
pub const PROT_WRITE: usize = 2;

/// Permission bit: the page may be executed.
pub const PROT_EXEC: usize = 4;

/// All permission bits together; anything outside is invalid.
pub const PROT_MASK: usize = 7;

/// The contents of a freshly mapped page: all zeroes.
pub open spec fn zero_page() -> Seq<u8> {
    Seq::new(PAGE_SIZE as nat, |o: int| 0u8)
}

/// One mapped page: its virtual page number, its permission bits, and its
/// backing frame of bytes.
#[derive(Clone, Copy, Debug)]
pub struct MappedPage {
    /// virtual page number (virtual address divided by the page size)
    pub vpn: usize,
    /// permission bits, a subset of [`PROT_MASK`]
    pub perm: usize,
    /// the frame's contents
    pub bytes: [u8; PAGE_SIZE],
}

/// A user address space: the pages currently mapped in it. The frames
/// backing consecutive virtual pages need not be related in any way; every
/// access resolves its page individually.
pub struct UserSpace {
    /// the mapped pages, each virtual page number at most once
    pub pages: Vec<MappedPage>,
}

impl UserSpace {
    /// Well-formedness: no virtual page number is mapped twice.
    pub open spec fn wf(self) -> bool {
        forall|i: int, j: int|
            0 <= i < j < self.pages@.len() ==> (#[trigger] self.pages@[i]).vpn
                != (#[trigger] self.pages@[j]).vpn
    }

    /// Whether virtual page number `vpn` is mapped.
    pub open spec fn mapped(self, vpn: int) -> bool {
        exists|i: int| 0 <= i < self.pages@.len() && (#[trigger] self.pages@[i]).vpn == vpn
    }

    /// The position of `vpn`'s page in the table; meaningful when mapped.
    pub open spec fn index_of(self, vpn: int) -> int {
        choose|i: int| 0 <= i < self.pages@.len() && (#[trigger] self.pages@[i]).vpn == vpn
    }

    /// The permission bits of a mapped page.
    pub open spec fn page_perm(self, vpn: int) -> usize {
        self.pages@[self.index_of(vpn)].perm
    }

    /// The contents of a mapped page.
    pub open spec fn page_bytes(self, vpn: int) -> Seq<u8> {
        self.pages@[self.index_of(vpn)].bytes@
    }

    /// The page holding `vpn` is mapped and may be written.
    pub open spec fn writable(self, vpn: int) -> bool {
        self.mapped(vpn) && self.page_perm(vpn) & PROT_WRITE != 0
    }

    /// The page holding `vpn` is mapped and may be read.
    pub open spec fn readable(self, vpn: int) -> bool {
        self.mapped(vpn) && self.page_perm(vpn) & PROT_READ != 0
    }

    /// The byte at user virtual address `addr`; meaningful when the address's
    /// page is mapped.
    pub open spec fn byte_at(self, addr: int) -> u8 {
        self.page_bytes(addr / (PAGE_SIZE as int))[addr % (PAGE_SIZE as int)]
    }

    /// An empty address space, with nothing mapped.
    pub fn new() -> (r: UserSpace)
        ensures
            r.wf(),
            r.pages@.len() == 0,
            forall|v: int| !r.mapped(v),
    {
        UserSpace { pages: Vec::new() }
    }
}

/// In a well-formed space, any table position holding `vpn` is the one
/// [`UserSpace::index_of`] denotes: the page of a mapped number is unique.
pub proof fn lemma_index_of(s: UserSpace, vpn: int, j: int)
    requires
        s.wf(),
        0 <= j < s.pages@.len(),
        s.pages@[j].vpn == vpn,
    ensures
        s.mapped(vpn),
        s.index_of(vpn) == j,
{
    assert(s.mapped(vpn));
    let i = s.index_of(vpn);
    if i != j {
        if i < j {
            assert(s.pages@[i].vpn != s.pages@[j].vpn);
        } else {
            assert(s.pages@[j].vpn != s.pages@[i].vpn);
        }
    }
}

impl UserSpace {
    /// Look up the table position of virtual page number `vpn`.
    pub fn find_page(&self, vpn: usize) -> (r: Option<usize>)
        requires
            self.wf(),
        ensures
            match r {
                Some(i) => {
                    &&& i < self.pages@.len()
                    &&& self.pages@[i as int].vpn == vpn
                    &&& self.mapped(vpn as int)
                    &&& self.index_of(vpn as int) == i
                },
                None => !self.mapped(vpn as int),
            },
    {
        let n = self.pages.len();
        let mut k: usize = 0;
        while k < n
            invariant
                self.wf(),
                n == self.pages@.len(),
                k <= n,
                forall|j: int| 0 <= j < k ==> (#[trigger] self.pages@[j]).vpn != vpn,
            decreases n - k,
        {
            if self.pages[k].vpn == vpn {
                proof {
                    lemma_index_of(*self, vpn as int, k as int);
                }
                return Some(k);
            }
            k = k + 1;
        }
        None
    }

    /// Map virtual page number `vpn` with permission bits `perm`, the frame
    /// zero-filled. The page must not be mapped yet.
    pub fn map_page(&mut self, vpn: usize, perm: usize)
        requires
            old(self).wf(),
            !old(self).mapped(vpn as int),
        ensures
            final(self).wf(),
            final(self).pages@.len() == old(self).pages@.len() + 1,
            forall|v: int| final(self).mapped(v) <==> old(self).mapped(v) || v == vpn,
            final(self).page_perm(vpn as int) == perm,
            final(self).page_bytes(vpn as int) =~= zero_page(),
            forall|v: int|
                old(self).mapped(v) ==> #[trigger] final(self).page_perm(v) == old(self).page_perm(
                    v,
                ),
            forall|v: int|
                old(self).mapped(v) ==> #[trigger] final(self).page_bytes(v) == old(
                    self,
                ).page_bytes(v),
    {
        let page = MappedPage { vpn, perm, bytes: [0; PAGE_SIZE] };
        self.pages.push(page);
        proof {
            let pre = old(self).pages@;
            let post = self.pages@;
            let n = pre.len() as int;
            assert forall|i: int, j: int| 0 <= i < j < post.len() implies (
            #[trigger] post[i]).vpn != (#[trigger] post[j]).vpn by {
                if j < n {
                } else {
                    assert(post[j].vpn == vpn);
                    if old(self).pages@[i].vpn == vpn {
                        assert(old(self).mapped(vpn as int));
                    }
                }
            }
            lemma_index_of(*self, vpn as int, n);
            assert forall|v: int| final(self).mapped(v) implies old(self).mapped(v) || v
                == vpn by {
                let i = choose|i: int|
                    0 <= i < post.len() && (#[trigger] post[i]).vpn == v;
                if i < n {
                    assert(pre[i].vpn == v);
                }
            }
            assert forall|v: int| old(self).mapped(v) implies final(self).mapped(v) by {
                let i = old(self).index_of(v);
                assert(pre[i].vpn == v);
                assert(post[i].vpn == v);
            }
            assert forall|v: int|
                old(self).mapped(v) implies #[trigger] final(self).page_perm(v) == old(
                self,
            ).page_perm(v) && #[trigger] final(self).page_bytes(v) == old(self).page_bytes(
                v,
            ) by {
                let i = old(self).index_of(v);
                assert(pre[i].vpn == v);
                lemma_index_of(*self, v, i);
            }
        }
    }

    /// Remove the mapping of virtual page number `vpn`; its contents are
    /// gone. The page must currently be mapped.
    pub fn unmap_page(&mut self, vpn: usize)
        requires
            old(self).wf(),
            old(self).mapped(vpn as int),
        ensures
            final(self).wf(),
            final(self).pages@.len() + 1 == old(self).pages@.len(),
            forall|v: int| final(self).mapped(v) <==> old(self).mapped(v) && v != vpn,
            forall|v: int|
                old(self).mapped(v) && v != vpn ==> #[trigger] final(self).page_perm(v) == old(
                    self,
                ).page_perm(v),
            forall|v: int|
                old(self).mapped(v) && v != vpn ==> #[trigger] final(self).page_bytes(v) == old(
                    self,
                ).page_bytes(v),
    {
        let i = match self.find_page(vpn) {
            Some(i) => i,
            None => {
                proof {
                    assert(false);
                }
                0
            },
        };
        self.pages.remove(i);
        proof {
            let pre = old(self).pages@;
            let post = self.pages@;
            assert(post == pre.remove(i as int));
            assert forall|a: int, b: int| 0 <= a < b < post.len() implies (
            #[trigger] post[a]).vpn != (#[trigger] post[b]).vpn by {
                let a0 = if a < i { a } else { a + 1 };
                let b0 = if b < i { b } else { b + 1 };
                assert(post[a] == pre[a0]);
                assert(post[b] == pre[b0]);
            }
            assert forall|v: int| final(self).mapped(v) implies old(self).mapped(v) && v
                != vpn by {
                let k = choose|k: int|
                    0 <= k < post.len() && (#[trigger] post[k]).vpn == v;
                let k0 = if k < i { k } else { k + 1 };
                assert(pre[k0].vpn == v);
                if v == vpn {
                    lemma_index_of(*old(self), vpn as int, k0);
                }
            }
            assert forall|v: int| old(self).mapped(v) && v != vpn implies final(self).mapped(
                v,
            ) by {
                let k0 = old(self).index_of(v);
                assert(pre[k0].vpn == v);
                if k0 != i {
                    let k = if k0 < i { k0 } else { k0 - 1 };
                    assert(post[k] == pre[k0]);
                    assert(post[k].vpn == v);
                }
            }
            assert forall|v: int|
                old(self).mapped(v) && v != vpn implies #[trigger] final(self).page_perm(v)
                == old(self).page_perm(v) && #[trigger] final(self).page_bytes(v) == old(
                self,
            ).page_bytes(v) by {
                let k0 = old(self).index_of(v);
                assert(pre[k0].vpn == v);
                let k = if k0 < i { k0 } else { k0 - 1 };
                assert(post[k] == pre[k0]);
                lemma_index_of(*self, v, k);
            }
        }
    }
}

/// Stepping within one page: as long as the offset stays below the page
/// size, the page number stands still and the offset advances linearly.
pub proof fn lemma_same_page(x: int, t: int)
    requires
        0 <= x,
        0 <= t,
        x % (PAGE_SIZE as int) + t < PAGE_SIZE as int,
    ensures
        (x + t) / (PAGE_SIZE as int) == x / (PAGE_SIZE as int),
        (x + t) % (PAGE_SIZE as int) == x % (PAGE_SIZE as int) + t,
{
    let ps = PAGE_SIZE as int;
    lemma_fundamental_div_mod(x, ps);
    lemma_fundamental_div_mod_converse(x + t, ps, x / ps, x % ps + t);
}

impl UserSpace {
    /// How many leading bytes of the destination range `[dest, dest + len)`
    /// lie on writable pages, walking page by page from `dest` and stopping
    /// at the first page that is unmapped or not writable. This is exactly
    /// the prefix a cross-space copy writes before it fails.
    pub open spec fn writable_prefix(self, dest: int, len: int) -> int
        decreases len,
    {
        let ps = PAGE_SIZE as int;
        if len <= 0 {
            0
        } else if !self.writable(dest / ps) {
            0
        } else {
            let in_page = ps - dest % ps;
            let chunk = if in_page <= len {
                in_page
            } else {
                len
            };
            chunk + self.writable_prefix(dest + chunk, len - chunk)
        }
    }
}

/// The writable prefix is never negative and never longer than the range.
pub proof fn lemma_writable_prefix_bounds(s: UserSpace, dest: int, len: int)
    requires
        0 <= len,
    ensures
        0 <= s.writable_prefix(dest, len) <= len,
    decreases len,
{
    let ps = PAGE_SIZE as int;
    if len > 0 && s.writable(dest / ps) {
        let in_page = ps - dest % ps;
        let chunk = if in_page <= len {
            in_page
        } else {
            len
        };
        lemma_writable_prefix_bounds(s, dest + chunk, len - chunk);
    }
}




impl UserSpace {
    /// Overwrite `chunk` bytes of the page at table position `i`, starting
    /// at offset `off`, with `src[src_off ..]`.
    fn write_page_chunk(&mut self, i: usize, off: usize, src: &Vec<u8>, src_off: usize, chunk: usize)
        requires
            old(self).wf(),
            i < old(self).pages@.len(),
            off + chunk <= PAGE_SIZE,
            src_off + chunk <= src@.len(),
            src@.len() <= usize::MAX,
        ensures
            final(self).wf(),
            final(self).pages@.len() == old(self).pages@.len(),
            forall|j: int|
                0 <= j < old(self).pages@.len() && j != i ==> final(self).pages@[j] == old(
                    self,
                ).pages@[j],
            final(self).pages@[i as int].vpn == old(self).pages@[i as int].vpn,
            final(self).pages@[i as int].perm == old(self).pages@[i as int].perm,
            forall|o: int|
                0 <= o < PAGE_SIZE && !(off <= o < off + chunk)
                    ==> final(self).pages@[i as int].bytes@[o] == old(
                    self,
                ).pages@[i as int].bytes@[o],
            forall|o: int|
                off <= o < off + chunk ==> final(self).pages@[i as int].bytes@[o] == src@[src_off
                    + (o - off)],
    {
        let mut page = self.pages[i];
        let mut t: usize = 0;
        while t < chunk
            invariant
                t <= chunk,
                i < old(self).pages@.len(),
                off + chunk <= PAGE_SIZE,
                src_off + chunk <= src@.len(),
                src@.len() <= usize::MAX,
                page.vpn == old(self).pages@[i as int].vpn,
                page.perm == old(self).pages@[i as int].perm,
                forall|o: int|
                    0 <= o < PAGE_SIZE && !(off <= o < off + t) ==> page.bytes@[o] == old(
                        self,
                    ).pages@[i as int].bytes@[o],
                forall|o: int|
                    off <= o < off + t ==> page.bytes@[o] == src@[src_off + (o - off)],
            decreases chunk - t,
        {
            page.bytes[off + t] = src[src_off + t];
            t = t + 1;
        }
        self.pages.set(i, page);
        proof {
            assert forall|a: int, b: int|
                0 <= a < b < self.pages@.len() implies (#[trigger] self.pages@[a]).vpn != (
            #[trigger] self.pages@[b]).vpn by {
                assert(self.pages@[a].vpn == old(self).pages@[a].vpn);
                assert(self.pages@[b].vpn == old(self).pages@[b].vpn);
            }
        }
    }
}

/// Copy `src` into the user virtual range that starts at `dest_addr` in
/// `space`, splitting the copy at page boundaries and resolving each page
/// individually. Returns the byte count on success, or -1 if the range
/// overflows the address width or touches a page that is unmapped or not
/// writable.
///
/// Partial-write policy: bytes on the writable pages *before* the first
/// failing page are written and stay written; the failure is still reported
/// as -1, and nothing at or past the failing page is touched.
pub fn copy_to_user(space: &mut UserSpace, dest_addr: usize, src: &Vec<u8>) -> (r: isize)
    requires
        old(space).wf(),
        src@.len() <= isize::MAX,
    ensures
        final(space).wf(),
        final(space).pages@.len() == old(space).pages@.len(),
        forall|v: int| #[trigger] final(space).mapped(v) == old(space).mapped(v),
        forall|v: int|
            old(space).mapped(v) ==> #[trigger] final(space).page_perm(v) == old(
                space,
            ).page_perm(v),
        ({
            let ps = PAGE_SIZE as int;
            let dest = dest_addr as int;
            let len = src@.len() as int;
            if dest + len > usize::MAX as int {
                &&& r == -1
                &&& forall|v: int|
                    old(space).mapped(v) ==> #[trigger] final(space).page_bytes(v) == old(
                        space,
                    ).page_bytes(v)
            } else {
                let w = old(space).writable_prefix(dest, len);
                &&& (w == len ==> r == len as isize)
                &&& (w < len ==> r == -1)
                &&& forall|a: int|
                    dest <= a < dest + w ==> #[trigger] final(space).byte_at(a) == src@[a - dest]
                &&& forall|a: int|
                    0 <= a && old(space).mapped(a / ps) && !(dest <= a < dest + w)
                        ==> #[trigger] final(space).byte_at(a) == old(space).byte_at(a)
            }
        }),
{
    let len = src.len();
    if len > usize::MAX - dest_addr {
        return -1;
    }
    let ghost orig = *space;
    let ghost ps = PAGE_SIZE as int;
    let ghost dest = dest_addr as int;
    proof {
        lemma_writable_prefix_bounds(orig, dest, len as int);
    }
    let mut copied: usize = 0;
    while copied < len
        invariant
            space.wf(),
            orig == *old(space),
            src@.len() == len,
            len <= isize::MAX,
            dest_addr + len <= usize::MAX,
            ps == PAGE_SIZE as int,
            dest == dest_addr as int,
            copied <= len,
            orig.wf(),
            space.pages@.len() == orig.pages@.len(),
            forall|v: int| #[trigger] space.mapped(v) == orig.mapped(v),
            forall|v: int|
                orig.mapped(v) ==> #[trigger] space.page_perm(v) == orig.page_perm(v),
            orig.writable_prefix(dest, len as int) == copied + orig.writable_prefix(
                dest + copied,
                len - copied,
            ),
            forall|a: int|
                dest <= a < dest + copied ==> orig.writable(#[trigger] (a / ps)),
            forall|a: int|
                dest <= a < dest + copied ==> #[trigger] space.byte_at(a) == src@[a - dest],
            forall|a: int|
                0 <= a && orig.mapped(a / ps) && !(dest <= a < dest + copied)
                    ==> #[trigger] space.byte_at(a) == orig.byte_at(a),
        decreases len - copied,
    {
        let addr = dest_addr + copied;
        let vpn = addr / PAGE_SIZE;
        let off = addr % PAGE_SIZE;
        let ghost rem = len - copied;
        proof {
            lemma_writable_prefix_bounds(orig, dest + copied, rem as int);
        }
        let found = space.find_page(vpn);
        let writable_here = match found {
            Some(i) => (space.pages[i].perm & PROT_WRITE) != 0,
            None => false,
        };
        if !writable_here {
            proof {
                assert(!space.writable(vpn as int)) by {
                    if space.mapped(vpn as int) {
                        match found {
                            Some(i) => {},
                            None => {},
                        }
                    }
                }
                assert(!orig.writable(vpn as int)) by {
                    if orig.mapped(vpn as int) {
                        assert(space.mapped(vpn as int));
                        assert(space.page_perm(vpn as int) == orig.page_perm(vpn as int));
                    }
                }
                assert(orig.writable_prefix(dest + copied, rem as int) == 0);
                assert(orig.writable_prefix(dest, len as int) == copied);
            }
            return -1;
        }
        let i = match found {
            Some(i) => i,
            None => {
                proof {
                    assert(false);
                }
                0
            },
        };
        let in_page = PAGE_SIZE - off;
        let remaining = len - copied;
        let chunk = if in_page <= remaining {
            in_page
        } else {
            remaining
        };
        let ghost space_before = *space;
        space.write_page_chunk(i, off, src, copied, chunk);
        proof {
            let v = vpn as int;
            assert(space_before.index_of(v) == i) by {
                lemma_index_of(space_before, v, i as int);
            }
            assert(space.pages@[i as int].vpn == v);
            lemma_index_of(*space, v, i as int);
            // the mapping and the permissions survive the byte writes
            assert forall|u: int| #[trigger] space.mapped(u) == space_before.mapped(u) by {
                if space_before.mapped(u) {
                    let j = space_before.index_of(u);
                    assert(space_before.pages@[j].vpn == u);
                    assert(space.pages@[j].vpn == u);
                }
                if space.mapped(u) {
                    let j = space.index_of(u);
                    assert(space.pages@[j].vpn == u);
                    assert(space_before.pages@[j].vpn == u);
                }
            }
            assert forall|u: int|
                space_before.mapped(u) implies #[trigger] space.page_perm(u)
                == space_before.page_perm(u) by {
                let j = space_before.index_of(u);
                assert(space_before.pages@[j].vpn == u);
                lemma_index_of(*space, u, j);
            }
            // untouched pages keep their bytes
            assert forall|u: int|
                space_before.mapped(u) && u != v implies #[trigger] space.page_bytes(u)
                == space_before.page_bytes(u) by {
                let j = space_before.index_of(u);
                assert(space_before.pages@[j].vpn == u);
                assert(j != i);
                lemma_index_of(*space, u, j);
            }
            // address arithmetic for this chunk: it stays within page v
            assert(addr as int == dest + copied);
            assert(addr as int % ps == off as int && addr as int / ps == v);
            assert forall|t: int| 0 <= t < chunk implies #[trigger] ((addr + t) / ps) == v && (addr
                + t) % ps == off + t by {
                lemma_same_page(addr as int, t);
            }
            // bytes written in this round
            assert forall|a: int|
                dest + copied <= a < dest + copied + chunk implies #[trigger] space.byte_at(a)
                == src@[a - dest] by {
                let t = a - (dest + copied);
                lemma_same_page(addr as int, t);
                assert(space.page_bytes(v)[off + t] == src@[copied + t]);
            }
            // bytes elsewhere are untouched
            assert forall|a: int|
                0 <= a && orig.mapped(a / ps) && !(dest <= a < dest + copied + chunk)
                    implies #[trigger] space.byte_at(a) == orig.byte_at(a) by {
                let u = a / ps;
                lemma_fundamental_div_mod(a, ps);
                let o = a % ps;
                assert(space_before.byte_at(a) == orig.byte_at(a));
                if u == v {
                    // same page: the untouched offsets keep their bytes
                    assert(a == v * ps + o);
                    assert(addr as int == v * ps + off);
                    if off <= o < off + chunk {
                        let t = o - off;
                        lemma_same_page(addr as int, t);
                        assert(a == addr + t);
                        assert(false);
                    }
                    assert(space.page_bytes(v)[o] == space_before.page_bytes(v)[o]);
                } else {
                    assert(space_before.mapped(u));
                    assert(space.page_bytes(u) == space_before.page_bytes(u));
                }
            }
            // prefix accounting: this page was writable, so the spec walk
            // takes exactly this chunk
            assert(orig.writable(v)) by {
                assert(space_before.mapped(v));
                assert(space_before.page_perm(v) & PROT_WRITE != 0);
            }
            assert(orig.writable_prefix(dest + copied, rem as int) == chunk
                + orig.writable_prefix(dest + copied + chunk, rem - chunk));
            // the chunk's addresses lie on the writable page v
            assert forall|a: int|
                dest + copied <= a < dest + copied + chunk implies orig.writable(
                #[trigger] (a / ps)) by {
                lemma_same_page(addr as int, a - (dest + copied));
            }
            // bytes written in earlier rounds survive this chunk
            assert forall|a: int|
                dest <= a < dest + copied implies #[trigger] space.byte_at(a) == src@[a
                - dest] by {
                assert(space_before.byte_at(a) == src@[a - dest]);
                let u = a / ps;
                lemma_fundamental_div_mod(a, ps);
                let o = a % ps;
                if u == v {
                    assert(a == u * ps + o);
                    assert(addr as int == v * ps + off);
                    assert(o < off);
                    assert(space.page_bytes(v)[o] == space_before.page_bytes(v)[o]);
                } else {
                    assert(orig.writable(u));
                    assert(space_before.mapped(u));
                    assert(space.page_bytes(u) == space_before.page_bytes(u));
                }
            }
        }
        copied = copied + chunk;
    }
    proof {
        assert(orig.writable_prefix(dest, len as int) == len as int);
        assert forall|v: int|
            old(space).mapped(v) implies #[trigger] space.page_perm(v) == old(
            space,
        ).page_perm(v) by {}
    }
    len as isize
}

impl UserSpace {
    /// Every byte of `[src, src + len)` lies on a readable page.
    pub open spec fn range_readable(self, src: int, len: int) -> bool {
        forall|a: int| src <= a < src + len ==> self.readable(#[trigger] (a / (PAGE_SIZE as int)))
    }
}

/// Read `len` bytes from the user virtual range starting at `src_addr`,
/// splitting the read at page boundaries. The read is atomic: it yields the
/// bytes only if the whole range lies on mapped, readable pages and does not
/// overflow the address width; otherwise it yields nothing at all.
pub fn copy_from_user(space: &UserSpace, src_addr: usize, len: usize) -> (r: Option<Vec<u8>>)
    requires
        space.wf(),
    ensures
        ({
            let src = src_addr as int;
            match r {
                Some(v) => {
                    &&& src + len <= usize::MAX
                    &&& space.range_readable(src, len as int)
                    &&& v@.len() == len
                    &&& forall|t: int| 0 <= t < len ==> #[trigger] v@[t] == space.byte_at(src + t)
                },
                None => src + len > usize::MAX || !space.range_readable(src, len as int),
            }
        }),
{
    if len > usize::MAX - src_addr {
        return None;
    }
    let ghost ps = PAGE_SIZE as int;
    let ghost src = src_addr as int;
    let mut out: Vec<u8> = Vec::new();
    let mut copied: usize = 0;
    while copied < len
        invariant
            space.wf(),
            ps == PAGE_SIZE as int,
            src == src_addr as int,
            src_addr + len <= usize::MAX,
            copied <= len,
            out@.len() == copied,
            forall|a: int| src <= a < src + copied ==> space.readable(#[trigger] (a / ps)),
            forall|t: int| 0 <= t < copied ==> #[trigger] out@[t] == space.byte_at(src + t),
        decreases len - copied,
    {
        let addr = src_addr + copied;
        let vpn = addr / PAGE_SIZE;
        let off = addr % PAGE_SIZE;
        let found = space.find_page(vpn);
        let readable_here = match found {
            Some(i) => (space.pages[i].perm & PROT_READ) != 0,
            None => false,
        };
        if !readable_here {
            proof {
                assert(!space.readable(vpn as int)) by {
                    if space.mapped(vpn as int) {
                        match found {
                            Some(i) => {},
                            None => {},
                        }
                    }
                }
                assert(!space.range_readable(src, len as int)) by {
                    assert(src <= (addr as int) < src + len);
                    assert((addr as int) / ps == vpn as int);
                }
            }
            return None;
        }
        let i = match found {
            Some(i) => i,
            None => {
                proof {
                    assert(false);
                }
                0
            },
        };
        let in_page = PAGE_SIZE - off;
        let remaining = len - copied;
        let chunk = if in_page <= remaining {
            in_page
        } else {
            remaining
        };
        let mut t: usize = 0;
        while t < chunk
            invariant
                space.wf(),
                ps == PAGE_SIZE as int,
                src == src_addr as int,
                addr == src_addr + copied,
                src_addr + len <= usize::MAX,
                copied + chunk <= len,
                off + chunk <= PAGE_SIZE,
                t <= chunk,
                i < space.pages@.len(),
                space.pages@[i as int].vpn == vpn,
                space.index_of(vpn as int) == i,
                vpn as int == (addr as int) / ps,
                off as int == (addr as int) % ps,
                out@.len() == copied + t,
                forall|u: int| 0 <= u < copied ==> #[trigger] out@[u] == space.byte_at(src + u),
                forall|u: int|
                    copied <= u < copied + t ==> #[trigger] out@[u] == space.byte_at(src + u),
            decreases chunk - t,
        {
            out.push(space.pages[i].bytes[off + t]);
            proof {
                lemma_same_page(addr as int, t as int);
                assert(space.byte_at(addr as int + t) == space.page_bytes(vpn as int)[off + t]);
            }
            t = t + 1;
        }
        proof {
            assert forall|a: int|
                src + copied <= a < src + copied + chunk implies space.readable(
                #[trigger] (a / ps)) by {
                lemma_same_page(addr as int, a - (src + copied));
            }
        }
        copied = copied + chunk;
    }
    proof {
        assert(space.range_readable(src, len as int));
    }
    Some(out)
}

} // verus!
