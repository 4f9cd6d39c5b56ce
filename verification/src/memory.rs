//! Page-granular guest memory: a table of mapped pages backed by a flat
//! physical byte store, with per-page permissions and a software dirty flag.
//! Every mapping is also emitted into the guest's own four-level page
//! tables inside that store, so the processor can translate what the host
//! has mapped; the root table lives in the reserved frame 0, where the
//! page-directory register points.
//!
//! Permissions govern the guest, through the write and no-execute bits of
//! its page-table entries; host-side `read` and `write` only require that
//! the pages are mapped.

use vstd::prelude::*;

verus! {

/// Size of a guest page in bytes.
pub const PAGE_SIZE: usize = 4096;

/// Guest access rights of a mapped page.
#[derive(Clone, Copy, Debug, PartialEq, Eq, Structural)]
pub struct PagePermissions {
    /// The guest may read the page.
    pub read: bool,
    /// The guest may write the page.
    pub write: bool,
    /// The guest may execute code on the page.
    pub execute: bool,
}

/// Error raised by a guest-memory operation.
#[derive(Clone, Copy, Debug, PartialEq, Eq, Structural)]
pub enum MemoryError {
    /// The address is not aligned to a page boundary.
    Unaligned(u64),
    /// A page at this base address is already mapped.
    AlreadyMapped(u64),
    /// The page holding this address is not mapped.
    Unmapped(u64),
    /// No free physical frame is left to back a new page.
    OutOfMemory,
    /// The byte range starting here runs past the end of the address space
    /// or of the physical store.
    OutOfRange(u64),
}

/// One mapped page, as reported to callers.
#[derive(Clone, Copy, Debug, PartialEq, Eq, Structural)]
pub struct Mapping {
    /// Base virtual address of the page.
    pub address: u64,
    /// Guest access rights of the page.
    pub permissions: PagePermissions,
    /// Whether a host-side write has touched the page since the flag was
    /// last cleared.
    pub dirty: bool,
}

/// Base address of page `k` of a run of pages that starts at `vaddr`.
pub open spec fn page_at(vaddr: u64, k: int) -> u64 {
    (vaddr + k * (PAGE_SIZE as int)) as u64
}

/// Whether a hypervisor dirty bitmap marks page `p`: bit `p % 64` of word
/// `p / 64`.
pub open spec fn bitmap_bit(bm: Seq<u64>, p: int) -> bool {
    &&& 0 <= p
    &&& p / 64 < bm.len()
    &&& (bm[p / 64] >> ((p % 64) as u64)) & 1 == 1
}

/// Internal record of one mapped page.
#[derive(Clone, Copy)]
struct PageEntry {
    /// Base virtual address, always page-aligned.
    base: u64,
    /// Index of the physical frame backing the page.
    frame: usize,
    /// Guest access rights.
    perms: PagePermissions,
    /// Software dirty flag.
    dirty: bool,
}

spec fn seq_matches(s: Seq<PageEntry>, i: int, base: u64) -> bool {
    s[i].base == base
}

spec fn seq_is_mapped(s: Seq<PageEntry>, base: u64) -> bool {
    exists|i: int| 0 <= i < s.len() && #[trigger] seq_matches(s, i, base)
}

spec fn seq_index_of(s: Seq<PageEntry>, base: u64) -> int {
    choose|i: int| 0 <= i < s.len() && #[trigger] seq_matches(s, i, base)
}

/// One page-table frame the memory has emitted into the physical store,
/// identified by its level and the base address of the region it covers.
#[derive(Clone, Copy)]
struct TableRec {
    /// 1 = page-directory-pointer table, 2 = page directory, 3 = page
    /// table.
    level: u8,
    /// Base of the virtual region the table covers.
    region: u64,
    /// Physical frame holding the table.
    frame: usize,
}

/// Guest virtual memory: mapped pages over a flat physical byte store,
/// with the guest's own four-level page tables emitted into that store so
/// the processor can translate what the host has mapped.
pub struct VirtualMemory {
    /// One entry per mapped page, in order of creation.
    entries: Vec<PageEntry>,
    /// The page-table frames emitted so far; the root table lives in the
    /// reserved frame 0.
    tables: Vec<TableRec>,
    /// The physical backing store; its length is a multiple of `PAGE_SIZE`.
    pmem: Vec<u8>,
    /// Index of the next physical frame to hand out; frame 0 is reserved
    /// for the page-table root.
    next_frame: usize,
}

impl VirtualMemory {
    /// The physical backing store as a byte sequence.
    pub closed spec fn phys(self) -> Seq<u8> {
        self.pmem@
    }

    /// Number of physical frames in the backing store.
    pub open spec fn frames(self) -> int {
        (self.phys().len() as int) / (PAGE_SIZE as int)
    }

    /// Index of the next physical frame a new mapping would get.
    pub closed spec fn next_free_frame(self) -> int {
        self.next_frame as int
    }

    /// Base address of the page holding virtual address `a`.
    pub open spec fn page_base_of(a: int) -> int {
        (a / (PAGE_SIZE as int)) * (PAGE_SIZE as int)
    }

    /// Whether a page with base address `base` is mapped.
    pub closed spec fn is_mapped(self, base: u64) -> bool {
        seq_is_mapped(self.entries@, base)
    }

    /// Index in the entry table of the page with base address `base`.
    spec fn index_of(self, base: u64) -> int {
        seq_index_of(self.entries@, base)
    }

    /// Guest access rights of the mapped page with base address `base`.
    pub closed spec fn perms_of(self, base: u64) -> PagePermissions {
        self.entries@[self.index_of(base)].perms
    }

    /// Dirty flag of the mapped page with base address `base`.
    pub closed spec fn dirty_of(self, base: u64) -> bool {
        self.entries@[self.index_of(base)].dirty
    }

    /// Physical frame backing the mapped page with base address `base`.
    pub closed spec fn frame_of(self, base: u64) -> int {
        self.entries@[self.index_of(base)].frame as int
    }

    /// Number of mapped pages.
    pub closed spec fn mapped_count(self) -> int {
        self.entries@.len() as int
    }

    /// Whether the byte at virtual address `a` lies on a mapped page.
    pub open spec fn byte_mapped(self, a: int) -> bool {
        0 <= a <= u64::MAX && self.is_mapped(Self::page_base_of(a) as u64)
    }

    /// Whether every byte of `[addr, addr + len)` lies on a mapped page.
    pub open spec fn range_mapped(self, addr: int, len: int) -> bool {
        forall|a: int| addr <= a < addr + len ==> self.byte_mapped(a)
    }

    /// Position in the physical store of the byte at virtual address `a`.
    pub open spec fn phys_index(self, a: int) -> int {
        self.frame_of(Self::page_base_of(a) as u64) * (PAGE_SIZE as int) + (a
            % (PAGE_SIZE as int))
    }

    /// The byte at virtual address `a`.
    pub open spec fn byte_at(self, a: int) -> u8 {
        self.phys()[self.phys_index(a)]
    }

    /// The bytes at virtual addresses `[addr, addr + len)`.
    pub open spec fn bytes_at(self, addr: int, len: int) -> Seq<u8> {
        Seq::new(len as nat, |k: int| self.byte_at(addr + k))
    }

    /// The little-endian 64-bit value at virtual address `a`.
    pub open spec fn read_u64_at(self, a: int) -> u64 {
        vstd::bytes::spec_u64_from_le_bytes(self.bytes_at(a, 8))
    }

    /// Structural soundness: aligned distinct pages on distinct allocated
    /// frames, frame 0 reserved, backing store a whole number of frames.
    pub closed spec fn wf(self) -> bool {
        &&& self.phys().len() == self.frames() * (PAGE_SIZE as int)
        &&& 1 <= self.next_frame as int <= self.frames()
        &&& forall|i: int|
            0 <= i < self.entries@.len() ==> {
                let e = #[trigger] self.entries@[i];
                &&& 1 <= e.frame
                &&& (e.frame as int) < self.next_frame as int
                &&& e.base % (PAGE_SIZE as u64) == 0
            }
        &&& forall|i: int, j: int|
            0 <= i < self.entries@.len() && 0 <= j < self.entries@.len() && i != j
                ==> #[trigger] self.entries@[i].base != #[trigger] self.entries@[j].base
                    && self.entries@[i].frame != self.entries@[j].frame
        &&& forall|t: int|
            0 <= t < self.tables@.len() ==> 1 <= (#[trigger] self.tables@[t]).frame
                && (self.tables@[t].frame as int) < self.next_frame as int
        &&& forall|t: int, i: int|
            0 <= t < self.tables@.len() && 0 <= i < self.entries@.len()
                ==> (#[trigger] self.tables@[t]).frame != (#[trigger] self.entries@[i]).frame
    }

    /// Mapped pages seen as records, in order of creation.
    pub closed spec fn mappings_view(self) -> Seq<Mapping> {
        self.entries@.map_values(
            |e: PageEntry|
                Mapping { address: e.base, permissions: e.perms, dirty: e.dirty },
        )
    }

    /// A well-formed memory's backing store is a whole number of frames,
    /// with the reserved root frame allocated.
    pub proof fn lemma_wf_size(self)
        requires
            self.wf(),
        ensures
            self.phys().len() == self.frames() * (PAGE_SIZE as int),
            1 <= self.next_free_frame() <= self.frames(),
    {
    }

    /// Creates a memory of at least `memory_size` bytes, rounded up to a
    /// whole number of pages, zero-filled, with no mappings and with frame 0
    /// reserved for the page-directory root.
    pub fn new(memory_size: usize) -> (r: Result<VirtualMemory, MemoryError>)
        ensures
            match r {
                Ok(m) => {
                    &&& m.wf()
                    &&& memory_size + PAGE_SIZE <= usize::MAX
                    &&& m.frames() * (PAGE_SIZE as int) == spec_round_up_to_page(
                        memory_size as int,
                    )
                    &&& m.phys() == Seq::new(
                        spec_round_up_to_page(memory_size as int) as nat,
                        |k: int| 0u8,
                    )
                    &&& m.mapped_count() == 0
                    &&& forall|b: u64| !m.is_mapped(b)
                    &&& m.next_free_frame() == 1
                },
                Err(e) => {
                    &&& e == MemoryError::OutOfMemory
                    &&& memory_size + PAGE_SIZE > usize::MAX
                },
            },
    {
        if memory_size > usize::MAX - PAGE_SIZE {
            return Err(MemoryError::OutOfMemory);
        }
        let rounded: usize = if memory_size % PAGE_SIZE == 0 && memory_size > 0 {
            memory_size
        } else {
            (memory_size / PAGE_SIZE) * PAGE_SIZE + PAGE_SIZE
        };
        let mut pmem: Vec<u8> = Vec::new();
        pmem.resize(rounded, 0u8);
        proof {
            assert(rounded as int == spec_round_up_to_page(memory_size as int)) by {
                lemma_round_up_to_page(memory_size as int);
            };
            assert(rounded as int % (PAGE_SIZE as int) == 0) by {
                lemma_round_up_to_page(memory_size as int);
            };
            assert((rounded as int / (PAGE_SIZE as int)) * (PAGE_SIZE as int)
                == rounded as int) by {
                vstd::arithmetic::div_mod::lemma_fundamental_div_mod(
                    rounded as int,
                    PAGE_SIZE as int,
                );
            };
            assert(pmem@ =~= Seq::new(rounded as nat, |k: int| 0u8));
        }
        Ok(
            VirtualMemory {
                entries: Vec::new(),
                tables: Vec::new(),
                pmem,
                next_frame: 1,
            },
        )
    }

    /// For a well-formed memory, an entry's position determines the lookup
    /// result for its base address.
    proof fn lemma_entry_determines_index(self, i: int)
        requires
            self.wf(),
            0 <= i < self.entries@.len(),
        ensures
            self.is_mapped(self.entries@[i].base),
            self.index_of(self.entries@[i].base) == i,
    {
        let base = self.entries@[i].base;
        assert(seq_matches(self.entries@, i, base));
        let j = self.index_of(base);
        assert(0 <= j < self.entries@.len() && seq_matches(self.entries@, j, base));
        if i != j {
            assert(self.entries@[i].base != self.entries@[j].base);
        }
    }

    /// Finds the entry table position of the page with base address `base`.
    fn find_entry(&self, base: u64) -> (r: Option<usize>)
        requires
            self.wf(),
        ensures
            match r {
                Some(i) => {
                    &&& (i as int) < self.entries@.len()
                    &&& self.entries@[i as int].base == base
                    &&& self.is_mapped(base)
                    &&& self.index_of(base) == i as int
                },
                None => !self.is_mapped(base),
            },
    {
        let n = self.entries.len();
        let mut i: usize = 0;
        while i < n
            invariant
                self.wf(),
                n == self.entries@.len(),
                i <= n,
                forall|k: int| 0 <= k < i ==> !seq_matches(self.entries@, k, base),
            decreases n - i,
        {
            if self.entries[i].base == base {
                proof {
                    self.lemma_entry_determines_index(i as int);
                }
                return Some(i);
            }
            i += 1;
        }
        proof {
            assert forall|k: int|
                0 <= k < self.entries@.len() implies !seq_matches(self.entries@, k, base) by {}
        }
        None
    }

    /// A mapped byte's physical position lies outside any frame other than
    /// its own.
    proof fn lemma_mapped_byte_not_in_frame(self, x: int, f: int)
        requires
            self.wf(),
            self.byte_mapped(x),
            self.frame_of(Self::page_base_of(x) as u64) != f,
            0 <= f,
        ensures
            !(f * (PAGE_SIZE as int) <= self.phys_index(x) < (f + 1) * (PAGE_SIZE as int)),
    {
        let ps = PAGE_SIZE as int;
        Self::lemma_page_base(x);
        self.lemma_phys_index_bounds(x);
        let fr = self.frame_of(Self::page_base_of(x) as u64);
        let idx = self.phys_index(x);
        if f * ps <= idx < (f + 1) * ps {
            vstd::arithmetic::div_mod::lemma_fundamental_div_mod_converse(idx, ps, fr, x % ps);
            assert((f + 1) * ps == f * ps + ps) by (nonlinear_arith);
            vstd::arithmetic::div_mod::lemma_fundamental_div_mod_converse(
                idx,
                ps,
                f,
                idx - f * ps,
            );
        }
    }

    /// Writes one 8-byte little-endian table entry into the physical
    /// store; the page table itself is the only thing that changes.
    fn set_phys_u64(&mut self, pos: usize, val: u64)
        requires
            pos + 8 <= old(self).phys().len(),
        ensures
            final(self).entries@ == old(self).entries@,
            final(self).tables@ == old(self).tables@,
            final(self).next_frame == old(self).next_frame,
            final(self).phys().len() == old(self).phys().len(),
            forall|p: int|
                0 <= p < old(self).phys().len() ==> #[trigger] final(self).phys()[p] == (if pos
                    <= p < pos + 8 {
                    vstd::bytes::spec_u64_to_le_bytes(val)[p - pos]
                } else {
                    old(self).phys()[p]
                }),
    {
        let bytes = vstd::bytes::u64_to_le_bytes(val);
        let mut k: usize = 0;
        while k < 8
            invariant
                pos + 8 <= old(self).phys().len(),
                bytes@ == vstd::bytes::spec_u64_to_le_bytes(val),
                bytes@.len() == 8,
                k <= 8,
                self.entries@ == old(self).entries@,
                self.tables@ == old(self).tables@,
                self.next_frame == old(self).next_frame,
                self.pmem@.len() == old(self).pmem@.len(),
                forall|p: int|
                    0 <= p < old(self).phys().len() ==> #[trigger] self.phys()[p] == (if pos
                        <= p < pos + k {
                        vstd::bytes::spec_u64_to_le_bytes(val)[p - pos]
                    } else {
                        old(self).phys()[p]
                    }),
            decreases 8 - k,
        {
            proof {
                vstd::std_specs::vec::axiom_spec_len(&self.pmem);
            }
            let ghost prev = *self;
            self.pmem[pos + k] = bytes[k];
            proof {
                assert forall|p: int| 0 <= p < old(self).phys().len()
                    implies #[trigger] self.phys()[p] == (if pos <= p < pos + k + 1 {
                    vstd::bytes::spec_u64_to_le_bytes(val)[p - pos]
                } else {
                    old(self).phys()[p]
                }) by {
                    if p != pos + k {
                        assert(self.phys()[p] == prev.phys()[p]);
                    }
                }
            }
            k += 1;
        }
    }

    /// Fills one whole frame of the physical store with zeros.
    fn zero_frame_bytes(&mut self, pos: usize)
        requires
            pos + PAGE_SIZE <= old(self).phys().len(),
        ensures
            final(self).entries@ == old(self).entries@,
            final(self).tables@ == old(self).tables@,
            final(self).next_frame == old(self).next_frame,
            final(self).phys().len() == old(self).phys().len(),
            forall|p: int|
                0 <= p < old(self).phys().len() && !(pos <= p < pos + PAGE_SIZE)
                    ==> #[trigger] final(self).phys()[p] == old(self).phys()[p],
    {
        let mut k: usize = 0;
        while k < PAGE_SIZE
            invariant
                pos + PAGE_SIZE <= old(self).phys().len(),
                k <= PAGE_SIZE,
                self.entries@ == old(self).entries@,
                self.tables@ == old(self).tables@,
                self.next_frame == old(self).next_frame,
                self.pmem@.len() == old(self).pmem@.len(),
                forall|p: int|
                    0 <= p < old(self).phys().len() && !(pos <= p < pos + PAGE_SIZE)
                        ==> #[trigger] self.phys()[p] == old(self).phys()[p],
            decreases PAGE_SIZE - k,
        {
            proof {
                vstd::std_specs::vec::axiom_spec_len(&self.pmem);
            }
            let ghost prev = *self;
            self.pmem[pos + k] = 0;
            proof {
                assert forall|p: int|
                    0 <= p < old(self).phys().len() && !(pos <= p < pos + PAGE_SIZE)
                        implies #[trigger] self.phys()[p] == old(self).phys()[p] by {
                    assert(self.phys()[p] == prev.phys()[p]);
                }
            }
            k += 1;
        }
    }

    /// Mapped bytes survive a write confined to a frame that backs no
    /// mapping.
    proof fn lemma_table_write_preserves(before: Self, after: Self, f: int)
        requires
            before.wf(),
            after.entries@ == before.entries@,
            after.phys().len() == before.phys().len(),
            0 <= f,
            forall|i: int|
                0 <= i < before.entries@.len() ==> (#[trigger] before.entries@[i]).frame != f,
            forall|p: int|
                0 <= p < before.phys().len() && !(f * (PAGE_SIZE as int) <= p < (f + 1) * (
                PAGE_SIZE as int)) ==> #[trigger] after.phys()[p] == before.phys()[p],
        ensures
            forall|x: int|
                #[trigger] before.byte_mapped(x) ==> after.byte_at(x) == before.byte_at(x),
    {
        assert forall|x: int| #[trigger] before.byte_mapped(x) implies after.byte_at(x)
            == before.byte_at(x) by {
            let b = Self::page_base_of(x) as u64;
            let i = before.index_of(b);
            assert(seq_matches(before.entries@, i, b));
            assert(before.entries@[i].frame != f);
            before.lemma_mapped_byte_not_in_frame(x, f);
            before.lemma_phys_index_bounds(x);
        }
    }

    /// Finds the emitted table covering `region` at `level`, or builds it:
    /// a fresh zeroed frame, pointed at from slot `parent_index` of the
    /// parent table. Fails only when no frame is left.
    fn ensure_table(&mut self, level: u8, region: u64, parent_frame: usize, parent_index: usize)
        -> (r: Result<usize, MemoryError>)
        requires
            old(self).wf(),
            parent_index < 512,
            parent_frame == 0 || exists|t: int|
                0 <= t < old(self).tables@.len() && (#[trigger] old(self).tables@[t]).frame
                    == parent_frame,
        ensures
            final(self).wf(),
            final(self).entries@ == old(self).entries@,
            final(self).phys().len() == old(self).phys().len(),
            old(self).next_frame <= final(self).next_frame,
            final(self).next_frame as int <= old(self).next_frame as int + 1,
            forall|t: int|
                0 <= t < old(self).tables@.len() ==> final(self).tables@[t] == old(self).tables@[t],
            final(self).tables@.len() >= old(self).tables@.len(),
            forall|t: int|
                old(self).tables@.len() <= t < final(self).tables@.len() ==> (#[trigger] final(self).tables@[t]).frame as int >= old(self).next_frame as int,
            forall|x: int|
                #[trigger] old(self).byte_mapped(x) ==> final(self).byte_at(x) == old(self).byte_at(x),
            match r {
                Ok(f) => {
                    &&& exists|t: int|
                        0 <= t < final(self).tables@.len() && (#[trigger] final(self).tables@[t]).frame == f
                    &&& (f as int) < final(self).frames()
                    &&& f >= 1
                    &&& (f as int) >= old(self).next_frame as int || exists|t: int|
                        0 <= t < old(self).tables@.len() && (#[trigger] old(self).tables@[t]).frame == f
                },
                Err(e) => {
                    &&& e == MemoryError::OutOfMemory
                    &&& final(self).next_frame as int == final(self).frames()
                    &&& final(self).next_frame == old(self).next_frame
                    &&& *final(self) == *old(self)
                },
            },
    {
        proof {
            self.lemma_wf_size();
        }
        // Look the table up first.
        let n = self.tables.len();
        let mut t: usize = 0;
        while t < n
            invariant
                self.wf(),
                n == self.tables@.len(),
                t <= n,
            decreases n - t,
        {
            let rec = self.tables[t];
            if rec.level == level && rec.region == region {
                proof {
                    assert(self.tables@[t as int].frame == rec.frame);
                    self.lemma_wf_size();
                }
                return Ok(rec.frame);
            }
            t += 1;
        }
        // Build it in a fresh frame.
        let total_frames = self.pmem.len() / PAGE_SIZE;
        if self.next_frame >= total_frames {
            return Err(MemoryError::OutOfMemory);
        }
        let f = self.next_frame;
        proof {
            assert((f as int + 1) * (PAGE_SIZE as int) <= self.frames() * (PAGE_SIZE as int))
                by {
                vstd::arithmetic::mul::lemma_mul_inequality(
                    f as int + 1,
                    self.frames(),
                    PAGE_SIZE as int,
                );
            };
            assert(f as int * (PAGE_SIZE as int) + (PAGE_SIZE as int) == (f as int + 1) * (
            PAGE_SIZE as int)) by (nonlinear_arith);
            assert(0 <= f as int * (PAGE_SIZE as int)) by {
                vstd::arithmetic::mul::lemma_mul_nonnegative(f as int, PAGE_SIZE as int);
            };
            assert(parent_frame as int * (PAGE_SIZE as int) + (PAGE_SIZE as int) <= self.frames()
                * (PAGE_SIZE as int)) by {
                vstd::arithmetic::mul::lemma_mul_inequality(
                    parent_frame as int + 1,
                    self.frames(),
                    PAGE_SIZE as int,
                );
                assert((parent_frame as int + 1) * (PAGE_SIZE as int) == parent_frame as int * (
                PAGE_SIZE as int) + (PAGE_SIZE as int)) by (nonlinear_arith);
            };
        }
        self.next_frame = f + 1;
        let ghost st0 = *self;
        self.zero_frame_bytes(f * PAGE_SIZE);
        let ghost st1 = *self;
        // Point the parent slot at the fresh table: present, writable.
        self.set_phys_u64(
            parent_frame * PAGE_SIZE + 8 * parent_index,
            ((f as u64) << 12) | 3,
        );
        let ghost st2 = *self;
        self.tables.push(TableRec { level, region, frame: f });
        proof {
            // The zeroed frame is fresh; the parent frame is a table or the
            // root: neither backs a mapping.
            assert forall|i: int| 0 <= i < st0.entries@.len() implies (
            #[trigger] st0.entries@[i]).frame != f as int by {}
            Self::lemma_table_write_preserves(st0, st1, f as int);
            assert forall|i: int| 0 <= i < st1.entries@.len() implies (
            #[trigger] st1.entries@[i]).frame != parent_frame as int by {
                if parent_frame != 0 {
                    let t2 = choose|t2: int|
                        0 <= t2 < old(self).tables@.len() && (#[trigger] old(self).tables@[t2]).frame == parent_frame;
                    assert(old(self).tables@[t2].frame != old(self).entries@[i].frame);
                }
            }
            Self::lemma_table_write_preserves(st1, st2, parent_frame as int);
            assert forall|x: int| #[trigger] old(self).byte_mapped(x) implies self.byte_at(x)
                == old(self).byte_at(x) by {
                assert(st0.byte_mapped(x));
                assert(st1.byte_mapped(x));
                assert(st1.byte_at(x) == st0.byte_at(x));
                assert(st2.byte_at(x) == st1.byte_at(x));
            }
            assert(self.tables@ == st2.tables@.push(TableRec { level, region, frame: f }));
            assert forall|t2: int, i: int|
                0 <= t2 < self.tables@.len() && 0 <= i < self.entries@.len() implies (
            #[trigger] self.tables@[t2]).frame != (#[trigger] self.entries@[i]).frame by {
                if t2 < st2.tables@.len() {
                    assert(self.tables@[t2] == old(self).tables@[t2]);
                } else {
                    assert(self.tables@[t2].frame == f);
                }
            }
            assert(self.tables@[self.tables@.len() - 1].frame == f);
        }
        Ok(f)
    }

    /// Emits the page-table chain translating the page at `va` to
    /// `data_frame`: present, writable when the rights say so, no-execute
    /// when they refuse execution. Fails only when no frame is left for a
    /// missing table, in which case the tables built so far stay but no
    /// mapping is recorded.
    fn emit_page_tables(&mut self, va: u64, data_frame: usize, perms: PagePermissions) -> (r:
        Result<(), MemoryError>)
        requires
            old(self).wf(),
        ensures
            final(self).wf(),
            final(self).entries@ == old(self).entries@,
            final(self).phys().len() == old(self).phys().len(),
            old(self).next_frame <= final(self).next_frame,
            final(self).next_frame as int <= old(self).next_frame as int + 3,
            forall|t: int|
                0 <= t < old(self).tables@.len() ==> final(self).tables@[t] == old(self).tables@[t],
            final(self).tables@.len() >= old(self).tables@.len(),
            forall|t: int|
                old(self).tables@.len() <= t < final(self).tables@.len() ==> (#[trigger] final(self).tables@[t]).frame as int >= old(self).next_frame as int,
            forall|x: int|
                #[trigger] old(self).byte_mapped(x) ==> final(self).byte_at(x) == old(self).byte_at(x),
            r is Err ==> r == Err::<(), MemoryError>(MemoryError::OutOfMemory) && final(self).next_frame as int == final(self).frames() && final(self).next_frame as int <= old(self).next_frame as int + 2,
    {
        let ghost m0 = *self;
        proof {
            assert((va >> 39) & 511 < 512) by (bit_vector);
            assert((va >> 30) & 511 < 512) by (bit_vector);
            assert((va >> 21) & 511 < 512) by (bit_vector);
            assert((va >> 12) & 511 < 512) by (bit_vector);
        }
        let pdpt = match self.ensure_table(
            1,
            va & 0xffff_ff80_0000_0000,
            0,
            ((va >> 39) & 511) as usize,
        ) {
            Ok(f) => f,
            Err(e) => {
                return Err(e);
            },
        };
        let ghost m1 = *self;
        let pd = match self.ensure_table(
            2,
            va & 0xffff_ffff_c000_0000,
            pdpt,
            ((va >> 30) & 511) as usize,
        ) {
            Ok(f) => f,
            Err(e) => {
                proof {
                    lemma_chain_preserves(m0, m1, *self);
                    assert forall|t: int|
                        m0.tables@.len() <= t < self.tables@.len() implies (
                    #[trigger] self.tables@[t]).frame as int >= m0.next_frame as int by {
                        assert(self.tables@[t] == m1.tables@[t]);
                    }
                }
                return Err(e);
            },
        };
        let ghost m2 = *self;
        let pt = match self.ensure_table(
            3,
            va & 0xffff_ffff_ffe0_0000,
            pd,
            ((va >> 21) & 511) as usize,
        ) {
            Ok(f) => f,
            Err(e) => {
                proof {
                    lemma_chain_preserves(m0, m1, m2);
                    lemma_chain_preserves(m0, m2, *self);
                    assert forall|t: int|
                        m0.tables@.len() <= t < self.tables@.len() implies (
                    #[trigger] self.tables@[t]).frame as int >= m0.next_frame as int by {
                        if t < m1.tables@.len() {
                            assert(self.tables@[t] == m2.tables@[t]);
                            assert(m2.tables@[t] == m1.tables@[t]);
                        } else {
                            assert(self.tables@[t] == m2.tables@[t]);
                            assert(m2.tables@[t].frame as int >= m1.next_frame as int);
                        }
                    }
                }
                return Err(e);
            },
        };
        let ghost m3 = *self;
        let mut entry: u64 = ((data_frame as u64) << 12) | 1;  // present
        if perms.write {
            entry = entry | 2;  // writable
        }
        if !perms.execute {
            entry = entry | (1u64 << 63);  // no-execute
        }
        proof {
            self.lemma_wf_size();
            vstd::std_specs::vec::axiom_spec_len(&self.pmem);
            assert(self.phys().len() <= usize::MAX);
            assert(pt as int * (PAGE_SIZE as int) + (PAGE_SIZE as int) <= self.frames() * (
            PAGE_SIZE as int)) by {
                vstd::arithmetic::mul::lemma_mul_inequality(
                    pt as int + 1,
                    self.frames(),
                    PAGE_SIZE as int,
                );
                assert((pt as int + 1) * (PAGE_SIZE as int) == pt as int * (PAGE_SIZE as int) + (
                PAGE_SIZE as int)) by (nonlinear_arith);
            };
            assert(0 <= pt as int * (PAGE_SIZE as int)) by {
                vstd::arithmetic::mul::lemma_mul_nonnegative(pt as int, PAGE_SIZE as int);
            };
        }
        self.set_phys_u64(pt * PAGE_SIZE + 8 * (((va >> 12) & 511) as usize), entry);
        proof {
            assert forall|i: int| 0 <= i < m3.entries@.len() implies (
            #[trigger] m3.entries@[i]).frame != pt as int by {
                let t2 = choose|t2: int|
                    0 <= t2 < m3.tables@.len() && (#[trigger] m3.tables@[t2]).frame == pt;
                assert(m3.tables@[t2].frame != m3.entries@[i].frame);
            }
            Self::lemma_table_write_preserves(m3, *self, pt as int);
            lemma_chain_preserves(m0, m1, m2);
            lemma_chain_preserves(m0, m2, m3);
            lemma_chain_preserves(m0, m3, *self);
            assert forall|t: int|
                m0.tables@.len() <= t < self.tables@.len() implies (
            #[trigger] self.tables@[t]).frame as int >= m0.next_frame as int by {
                assert(self.tables@[t] == m3.tables@[t]);
                if t < m1.tables@.len() {
                    assert(m3.tables@[t] == m2.tables@[t]);
                    assert(m2.tables@[t] == m1.tables@[t]);
                } else if t < m2.tables@.len() {
                    assert(m3.tables@[t] == m2.tables@[t]);
                    assert(m2.tables@[t].frame as int >= m1.next_frame as int);
                } else {
                    assert(m3.tables@[t].frame as int >= m2.next_frame as int);
                }
            }
        }
        Ok(())
    }

    /// Number of whole pages needed to hold `size` bytes.
    pub open spec fn spec_pages_of(size: int) -> int {
        (size + (PAGE_SIZE as int) - 1) / (PAGE_SIZE as int)
    }

    /// Maps `size` bytes (rounded up to whole pages) at page-aligned address
    /// `vaddr` with access rights `perms`: each page gets a fresh backing
    /// frame and its translation is emitted into the guest page tables.
    /// Fails without recording anything if the address is unaligned, the
    /// range wraps the address space, a page in the range is already
    /// mapped, or the physical store has too few free frames — though a
    /// failure while building tables can leave table frames allocated.
    pub fn mmap(&mut self, vaddr: u64, size: usize, perms: PagePermissions) -> (r: Result<
        (),
        MemoryError,
    >)
        requires
            old(self).wf(),
        ensures
            final(self).wf(),
            ({
                let np = Self::spec_pages_of(size as int);
                match r {
                    Ok(()) => {
                        &&& vaddr % (PAGE_SIZE as u64) == 0
                        &&& vaddr + np * (PAGE_SIZE as int) <= u64::MAX + 1
                        &&& forall|k: int|
                            0 <= k < np ==> !old(self).is_mapped(#[trigger] page_at(vaddr, k))
                        &&& np <= old(self).frames() - old(self).next_free_frame()
                        &&& forall|k: int|
                            0 <= k < np ==> {
                                let b = page_at(vaddr, k);
                                &&& final(self).is_mapped(#[trigger] page_at(vaddr, k))
                                &&& final(self).perms_of(b) == perms
                                &&& final(self).dirty_of(b) == false
                                &&& final(self).frame_of(b) == old(self).next_free_frame()
                                    + k
                            }
                        &&& forall|b: u64|
                            #[trigger] old(self).is_mapped(b) ==> final(self).is_mapped(b)
                                && final(self).perms_of(b) == old(self).perms_of(b)
                                && final(self).dirty_of(b) == old(self).dirty_of(b)
                                && final(self).frame_of(b) == old(self).frame_of(b)
                        &&& forall|b: u64|
                            #[trigger] final(self).is_mapped(b) ==> old(self).is_mapped(b)
                                || exists|k: int|
                                0 <= k < np && b == page_at(vaddr, k)
                        &&& final(self).phys().len() == old(self).phys().len()
                        &&& forall|x: int|
                            #[trigger] old(self).byte_mapped(x) ==> final(self).byte_at(x)
                                == old(self).byte_at(x)
                        &&& old(self).next_free_frame() + np <= final(self).next_free_frame()
                            <= old(self).next_free_frame() + 4 * np
                        &&& final(self).mappings_view() == old(self).mappings_view()
                            + Seq::new(
                            np as nat,
                            |k: int|
                                Mapping {
                                    address: page_at(vaddr, k),
                                    permissions: perms,
                                    dirty: false,
                                },
                        )
                    },
                    Err(MemoryError::Unaligned(a)) => {
                        &&& a == vaddr
                        &&& vaddr % (PAGE_SIZE as u64) != 0
                        &&& *final(self) == *old(self)
                    },
                    Err(MemoryError::OutOfRange(a)) => {
                        &&& a == vaddr
                        &&& vaddr % (PAGE_SIZE as u64) == 0
                        &&& vaddr + np * (PAGE_SIZE as int) > u64::MAX + 1
                        &&& *final(self) == *old(self)
                    },
                    Err(MemoryError::AlreadyMapped(b)) => {
                        &&& vaddr % (PAGE_SIZE as u64) == 0
                        &&& vaddr + np * (PAGE_SIZE as int) <= u64::MAX + 1
                        &&& exists|k: int|
                            0 <= k < np && b == #[trigger] page_at(vaddr, k)
                                && old(self).is_mapped(b) && forall|k2: int|
                                0 <= k2 < k ==> !old(self).is_mapped(#[trigger] page_at(vaddr, k2))
                        &&& *final(self) == *old(self)
                    },
                    Err(MemoryError::OutOfMemory) => {
                        &&& vaddr % (PAGE_SIZE as u64) == 0
                        &&& vaddr + np * (PAGE_SIZE as int) <= u64::MAX + 1
                        &&& forall|k: int|
                            0 <= k < np ==> !old(self).is_mapped(#[trigger] page_at(vaddr, k))
                        &&& np > old(self).frames() - old(self).next_free_frame() || final(self).next_free_frame() == final(self).frames()
                        &&& final(self).mappings_view() == old(self).mappings_view()
                        &&& forall|b: u64|
                            #[trigger] final(self).is_mapped(b) <==> old(self).is_mapped(b)
                        &&& forall|b: u64|
                            #[trigger] old(self).is_mapped(b) ==> final(self).perms_of(b)
                                == old(self).perms_of(b) && final(self).dirty_of(b) == old(self).dirty_of(b) && final(self).frame_of(b) == old(self).frame_of(b)
                        &&& final(self).phys().len() == old(self).phys().len()
                        &&& forall|x: int|
                            #[trigger] old(self).byte_mapped(x) ==> final(self).byte_at(x)
                                == old(self).byte_at(x)
                    },
                    _ => false,
                }
            }),
            // Success is owed outright when the range is sound, free of
            // existing pages, and the store holds a frame for each page
            // plus its worst case of three fresh tables.
            ({
                let np = Self::spec_pages_of(size as int);
                (vaddr % (PAGE_SIZE as u64) == 0 && vaddr + np * (PAGE_SIZE as int) <= u64::MAX
                    + 1 && (forall|k: int|
                    0 <= k < np ==> !old(self).is_mapped(#[trigger] page_at(vaddr, k))) && 4 * np
                    <= old(self).frames() - old(self).next_free_frame()) ==> r is Ok
            }),
    {
        if vaddr % (PAGE_SIZE as u64) != 0 {
            return Err(MemoryError::Unaligned(vaddr));
        }
        let npages: usize = size / PAGE_SIZE + if size % PAGE_SIZE != 0 {
            1
        } else {
            0
        };
        assert(npages as int == Self::spec_pages_of(size as int)) by {
            vstd::arithmetic::div_mod::lemma_fundamental_div_mod(size as int, PAGE_SIZE as int);
        };
        // Pages that fit between `vaddr` and the top of the address space.
        let max_pages: u64 = (u64::MAX - vaddr) / (PAGE_SIZE as u64) + 1;
        if npages as u64 > max_pages {
            assert(vaddr + npages * (PAGE_SIZE as int) > u64::MAX + 1) by {
                vstd::arithmetic::div_mod::lemma_fundamental_div_mod(
                    (u64::MAX - vaddr) as int,
                    PAGE_SIZE as int,
                );
            };
            return Err(MemoryError::OutOfRange(vaddr));
        }
        assert(vaddr + npages * (PAGE_SIZE as int) <= u64::MAX + 1) by {
            vstd::arithmetic::div_mod::lemma_fundamental_div_mod(
                (u64::MAX - vaddr) as int,
                PAGE_SIZE as int,
            );
        };
        // First pass: refuse the whole request if any page is already mapped.
        let mut k: usize = 0;
        while k < npages
            invariant
                self.wf(),
                self == old(self),
                vaddr % (PAGE_SIZE as u64) == 0,
                npages as int == Self::spec_pages_of(size as int),
                vaddr + npages * (PAGE_SIZE as int) <= u64::MAX + 1,
                k <= npages,
                forall|k2: int|
                    0 <= k2 < k ==> !self.is_mapped(page_at(vaddr, k2)),
            decreases npages - k,
        {
            proof {
                assert((k as int) * (PAGE_SIZE as int) + (PAGE_SIZE as int) <= (npages as int)
                    * (PAGE_SIZE as int)) by (nonlinear_arith)
                    requires
                        (k as int) < (npages as int),
                ;
            }
            let base = vaddr + (k as u64) * (PAGE_SIZE as u64);
            proof {
                assert(base == page_at(vaddr, k as int));
            }
            if self.find_entry(base).is_some() {
                return Err(MemoryError::AlreadyMapped(base));
            }
            k += 1;
        }
        // Second pass: refuse if the backing store has no room for the
        // pages themselves.
        let total_frames = self.pmem.len() / PAGE_SIZE;
        if npages > total_frames - self.next_frame {
            return Err(MemoryError::OutOfMemory);
        }
        let ghost old_self = *self;
        // Reserve the backing frames, then emit each page's translation;
        // missing tables allocate their own frames past the reservation.
        let data_start = self.next_frame;
        self.next_frame = data_start + npages;
        let mut k: usize = 0;
        while k < npages
            invariant
                old_self == *old(self),
                old_self.wf(),
                self.wf(),
                vaddr % (PAGE_SIZE as u64) == 0,
                npages as int == Self::spec_pages_of(size as int),
                vaddr + npages * (PAGE_SIZE as int) <= u64::MAX + 1,
                npages <= old_self.frames() - old_self.next_free_frame(),
                forall|k2: int|
                    0 <= k2 < npages ==> !old_self.is_mapped(page_at(vaddr, k2)),
                data_start as int == old_self.next_free_frame(),
                k <= npages,
                self.entries@ == old_self.entries@,
                self.phys().len() == old_self.phys().len(),
                self.frames() == old_self.frames(),
                data_start as int + npages as int <= self.next_frame as int,
                self.next_frame as int <= data_start as int + npages as int + 3 * (k as int),
                forall|t: int|
                    0 <= t < old_self.tables@.len() ==> self.tables@[t] == old_self.tables@[t],
                self.tables@.len() >= old_self.tables@.len(),
                forall|t: int|
                    old_self.tables@.len() <= t < self.tables@.len() ==> (
                    #[trigger] self.tables@[t]).frame as int >= data_start as int
                        + npages as int,
                forall|x: int|
                    #[trigger] old_self.byte_mapped(x) ==> self.byte_at(x) == old_self.byte_at(
                        x,
                    ),
            decreases npages - k,
        {
            proof {
                assert((k as int) * (PAGE_SIZE as int) + (PAGE_SIZE as int) <= (npages as int)
                    * (PAGE_SIZE as int)) by (nonlinear_arith)
                    requires
                        (k as int) < (npages as int),
                ;
            }
            let va = vaddr + (k as u64) * (PAGE_SIZE as u64);
            proof {
                assert(va == page_at(vaddr, k as int));
            }
            let ghost before_emit = *self;
            match self.emit_page_tables(va, data_start + k, perms) {
                Ok(()) => (),
                Err(_) => {
                    proof {
                        lemma_chain_preserves(old_self, before_emit, *self);
                        assert(self.mappings_view() == old_self.mappings_view());
                        assert(self.next_frame as int <= data_start as int + npages as int + 3
                            * (k as int) + 2);
                        assert(self.next_frame as int == self.frames());
                        assert(self.frames() == old_self.frames());
                        assert(old_self.frames() - old_self.next_free_frame() < 4 * (
                        npages as int));
                        assert(forall|b: u64|
                            #[trigger] self.is_mapped(b) <==> old_self.is_mapped(b));
                        assert(forall|b: u64|
                            #[trigger] old_self.is_mapped(b) ==> self.perms_of(b)
                                == old_self.perms_of(b) && self.dirty_of(b)
                                == old_self.dirty_of(b) && self.frame_of(b)
                                == old_self.frame_of(b));
                        assert(forall|k2: int|
                            0 <= k2 < npages ==> !old_self.is_mapped(
                                #[trigger] page_at(vaddr, k2),
                            ));
                        assert(old_self == *old(self));
                        assert(self.wf());
                        assert(vaddr % (PAGE_SIZE as u64) == 0);
                        assert(vaddr + (npages as int) * (PAGE_SIZE as int) <= u64::MAX + 1);
                        assert(npages as int == Self::spec_pages_of(size as int));
                        assert(self.next_free_frame() == self.frames());
                        assert(self.mappings_view() == old(self).mappings_view());
                        assert(self.phys().len() == old(self).phys().len());
                        assert(forall|x: int|
                            #[trigger] old(self).byte_mapped(x) ==> self.byte_at(x) == old(self).byte_at(x));
                    }
                    return Err(MemoryError::OutOfMemory);
                },
            }
            proof {
                lemma_chain_preserves(old_self, before_emit, *self);
                assert forall|t: int|
                    old_self.tables@.len() <= t < self.tables@.len() implies (
                #[trigger] self.tables@[t]).frame as int >= data_start as int
                    + npages as int by {
                    if t < before_emit.tables@.len() {
                        assert(self.tables@[t] == before_emit.tables@[t]);
                    } else {
                        assert(self.tables@[t].frame as int >= before_emit.next_frame as int);
                    }
                }
            }
            k += 1;
        }
        let ghost after_emit = *self;
        // Record the pages.
        let mut k: usize = 0;
        while k < npages
            invariant
                old_self.wf(),
                after_emit.wf(),
                self.wf(),
                vaddr % (PAGE_SIZE as u64) == 0,
                npages as int == Self::spec_pages_of(size as int),
                vaddr + npages * (PAGE_SIZE as int) <= u64::MAX + 1,
                npages <= old_self.frames() - old_self.next_free_frame(),
                forall|k2: int|
                    0 <= k2 < npages ==> !old_self.is_mapped(
                        page_at(vaddr, k2),
                    ),
                data_start as int == old_self.next_free_frame(),
                k <= npages,
                after_emit.entries@ == old_self.entries@,
                self.pmem == after_emit.pmem,
                self.tables == after_emit.tables,
                self.next_frame == after_emit.next_frame,
                self.phys().len() == old_self.phys().len(),
                data_start as int + npages as int <= self.next_frame as int,
                self.next_frame as int <= data_start as int + npages as int + 3 * (
                npages as int),
                after_emit.tables@.len() >= old_self.tables@.len(),
                forall|t: int|
                    0 <= t < old_self.tables@.len() ==> after_emit.tables@[t]
                        == old_self.tables@[t],
                forall|t: int|
                    old_self.tables@.len() <= t < after_emit.tables@.len() ==> (
                    #[trigger] after_emit.tables@[t]).frame as int >= data_start as int
                        + npages as int,
                forall|x: int|
                    #[trigger] old_self.byte_mapped(x) ==> after_emit.byte_at(x)
                        == old_self.byte_at(x),
                self.entries@.len() == old_self.entries@.len() + k,
                self.entries@.subrange(0, old_self.entries@.len() as int)
                    == old_self.entries@,
                forall|k2: int|
                    0 <= k2 < k ==> {
                        let e = #[trigger] self.entries@[old_self.entries@.len() + k2];
                        &&& e.base == page_at(vaddr, k2)
                        &&& e.frame as int == data_start as int + k2
                        &&& e.perms == perms
                        &&& e.dirty == false
                    },
            decreases npages - k,
        {
            proof {
                assert((k as int) * (PAGE_SIZE as int) + (PAGE_SIZE as int) <= (npages as int)
                    * (PAGE_SIZE as int)) by (nonlinear_arith)
                    requires
                        (k as int) < (npages as int),
                ;
            }
            let base = vaddr + (k as u64) * (PAGE_SIZE as u64);
            proof {
                assert(base == page_at(vaddr, k as int));
            }
            let frame = data_start + k;
            let ghost prev = *self;
            self.entries.push(
                PageEntry { base, frame, perms, dirty: false },
            );
            proof {
                let old_len = old_self.entries@.len() as int;
                let new_i = self.entries@.len() - 1;
                assert(self.entries@ == prev.entries@.push(
                    PageEntry { base, frame, perms, dirty: false },
                ));
                assert(self.entries@.subrange(0, old_len) =~= old_self.entries@);
                assert(base % (PAGE_SIZE as u64) == 0) by {
                    vstd::arithmetic::div_mod::lemma_mod_multiples_vanish(
                        k as int,
                        vaddr as int,
                        PAGE_SIZE as int,
                    );
                };
                assert(self.entries@[old_len + k as int] == PageEntry {
                    base,
                    frame,
                    perms,
                    dirty: false,
                });
                assert forall|i: int, j: int|
                    0 <= i < self.entries@.len() && 0 <= j < self.entries@.len() && i != j
                        implies #[trigger] self.entries@[i].base
                        != #[trigger] self.entries@[j].base && self.entries@[i].frame
                        != self.entries@[j].frame by {
                    if i == new_i || j == new_i {
                        let p = if i == new_i {
                            j
                        } else {
                            i
                        };
                        assert(self.entries@[new_i] == PageEntry {
                            base,
                            frame,
                            perms,
                            dirty: false,
                        });
                        assert(self.entries@[p] == prev.entries@[p]);
                        if p < old_len {
                            assert(prev.entries@.subrange(0, old_len)[p] == prev.entries@[p]);
                            assert(self.entries@[p] == old_self.entries@[p]);
                            if self.entries@[p].base == base {
                                old_self.lemma_entry_determines_index(p);
                                assert(old_self.is_mapped(#[trigger] page_at(vaddr, k as int)));
                            }
                        } else {
                            let k2 = p - old_len;
                            assert(prev.entries@[old_len + k2].base == page_at(vaddr, k2));
                            assert(prev.entries@[old_len + k2].frame as int
                                == data_start as int + k2);
                            assert(self.entries@[p].base != base) by {
                                lemma_distinct_page_bases(vaddr, k2, k as int);
                            };
                        }
                    } else {
                        assert(self.entries@[i] == prev.entries@[i]);
                        assert(self.entries@[j] == prev.entries@[j]);
                    }
                }
                assert forall|t: int, i: int|
                    0 <= t < self.tables@.len() && 0 <= i < self.entries@.len() implies (
                #[trigger] self.tables@[t]).frame != (#[trigger] self.entries@[i]).frame by {
                    assert(self.tables@[t] == prev.tables@[t]);
                    if i == new_i {
                        if t < old_self.tables@.len() {
                            assert(after_emit.tables@[t] == old_self.tables@[t]);
                            assert((old_self.tables@[t].frame as int)
                                < old_self.next_frame as int);
                        } else {
                            assert((after_emit.tables@[t].frame as int) >= data_start as int
                                + npages as int);
                        }
                    } else {
                        assert(self.entries@[i] == prev.entries@[i]);
                        assert(prev.tables@[t].frame != prev.entries@[i].frame);
                    }
                }
                assert forall|i: int|
                    0 <= i < self.entries@.len() implies ({
                        let e = #[trigger] self.entries@[i];
                        &&& 1 <= e.frame
                        &&& (e.frame as int) < self.next_frame as int
                        &&& e.base % (PAGE_SIZE as u64) == 0
                    }) by {
                    if i < new_i {
                        assert(self.entries@[i] == prev.entries@[i]);
                        assert(1 <= prev.entries@[i].frame && (prev.entries@[i].frame as int)
                            < prev.next_frame as int && prev.entries@[i].base % (
                        PAGE_SIZE as u64) == 0);
                    }
                }
            }
            k += 1;
        }
        proof {
            let np = npages as int;
            let fresh = Seq::new(
                np as nat,
                |k: int|
                    Mapping {
                        address: page_at(vaddr, k),
                        permissions: perms,
                        dirty: false,
                    },
            );
            assert forall|i: int| 0 <= i < self.mappings_view().len() implies self.mappings_view()[i]
                == (old_self.mappings_view() + fresh)[i] by {
                if i >= old_self.entries@.len() {
                    let k2 = i - old_self.entries@.len();
                    assert(self.entries@[old_self.entries@.len() + k2].base == page_at(vaddr, k2));
                } else {
                    assert(self.entries@[i] == old_self.entries@[i]);
                }
            }
            assert(self.mappings_view() =~= old_self.mappings_view() + fresh);
            assert forall|k2: int|
                0 <= k2 < np implies {
                    let b = page_at(vaddr, k2);
                    &&& self.is_mapped(#[trigger] page_at(vaddr, k2))
                    &&& self.perms_of(b) == perms
                    &&& self.dirty_of(b) == false
                    &&& self.frame_of(b) == old_self.next_free_frame() + k2
                } by {
                let i = old_self.entries@.len() + k2;
                self.lemma_entry_determines_index(i);
            }
            assert forall|b: u64| #[trigger] old_self.is_mapped(b) implies self.is_mapped(b)
                && self.perms_of(b) == old_self.perms_of(b) && self.dirty_of(b)
                == old_self.dirty_of(b) && self.frame_of(b) == old_self.frame_of(b) by {
                let i = old_self.index_of(b);
                assert(seq_matches(old_self.entries@, i, b));
                assert(self.entries@[i] == old_self.entries@[i]);
                self.lemma_entry_determines_index(i);
            }
            assert forall|b: u64| #[trigger] self.is_mapped(b) implies old_self.is_mapped(b)
                || exists|k2: int|
                0 <= k2 < np && b == page_at(vaddr, k2) by {
                let i = self.index_of(b);
                assert(seq_matches(self.entries@, i, b));
                if i < old_self.entries@.len() {
                    assert(self.entries@[i] == old_self.entries@[i]);
                    old_self.lemma_entry_determines_index(i);
                } else {
                    let k2 = i - old_self.entries@.len();
                    assert(self.entries@[old_self.entries@.len() + k2].base == page_at(vaddr, k2));
                    assert(b == page_at(vaddr, k2));
                }
            }
            assert forall|x: int| #[trigger] old_self.byte_mapped(x) implies self.byte_at(x)
                == old_self.byte_at(x) by {
                let pb = Self::page_base_of(x) as u64;
                assert(old_self.is_mapped(pb));
                assert(self.frame_of(pb) == old_self.frame_of(pb));
                assert(after_emit.byte_at(x) == old_self.byte_at(x));
            }
        }
        Ok(())
    }

    /// Facts about the page that holds byte address `x`.
    proof fn lemma_page_base(x: int)
        requires
            0 <= x <= u64::MAX,
        ensures
            Self::page_base_of(x) % (PAGE_SIZE as int) == 0,
            0 <= Self::page_base_of(x) <= x,
            x < Self::page_base_of(x) + (PAGE_SIZE as int),
            x % (PAGE_SIZE as int) == x - Self::page_base_of(x),
            0 <= x % (PAGE_SIZE as int) < (PAGE_SIZE as int),
    {
        vstd::arithmetic::div_mod::lemma_fundamental_div_mod(x, PAGE_SIZE as int);
        vstd::arithmetic::div_mod::lemma_mod_bound(x, PAGE_SIZE as int);
        vstd::arithmetic::div_mod::lemma_div_pos_is_pos(x, PAGE_SIZE as int);
        vstd::arithmetic::mul::lemma_mul_nonnegative(x / (PAGE_SIZE as int), PAGE_SIZE as int);
        vstd::arithmetic::div_mod::lemma_mod_multiples_basic(
            x / (PAGE_SIZE as int),
            PAGE_SIZE as int,
        );
    }

    /// An aligned address is its own page base.
    proof fn lemma_page_base_aligned(b: int)
        requires
            0 <= b <= u64::MAX,
            b % (PAGE_SIZE as int) == 0,
        ensures
            Self::page_base_of(b) == b,
    {
        Self::lemma_page_base(b);
    }

    /// A page-aligned base is the page base of every address on its page.
    pub proof fn lemma_page_base_offset(base: u64, o: int)
        requires
            base % (PAGE_SIZE as u64) == 0,
            0 <= o < PAGE_SIZE as int,
            base + o <= u64::MAX,
        ensures
            Self::page_base_of(base + o) == base,
    {
        vstd::arithmetic::div_mod::lemma_fundamental_div_mod(base as int, PAGE_SIZE as int);
        vstd::arithmetic::div_mod::lemma_fundamental_div_mod_converse(
            base as int + o,
            PAGE_SIZE as int,
            (base as int) / (PAGE_SIZE as int),
            o,
        );
    }

    /// A mapped byte's physical position lies inside the backing store.
    proof fn lemma_phys_index_bounds(self, x: int)
        requires
            self.wf(),
            self.byte_mapped(x),
        ensures
            0 <= self.phys_index(x) < self.phys().len(),
            1 <= self.frame_of(Self::page_base_of(x) as u64) < self.next_free_frame(),
    {
        Self::lemma_page_base(x);
        let b = Self::page_base_of(x) as u64;
        let i = self.index_of(b);
        assert(0 <= i < self.entries@.len() && seq_matches(self.entries@, i, b));
        let e = self.entries@[i];
        let f = self.frame_of(b);
        assert(1 <= f < self.next_frame as int);
        let ps = PAGE_SIZE as int;
        assert((f + 1) * ps <= self.frames() * ps) by {
            vstd::arithmetic::mul::lemma_mul_inequality(f + 1, self.frames(), ps);
        };
        assert(f * ps + ps == (f + 1) * ps) by (nonlinear_arith);
        assert(0 <= f * ps) by {
            vstd::arithmetic::mul::lemma_mul_nonnegative(f, ps);
        };
    }

    /// Distinct mapped bytes sit at distinct physical positions.
    proof fn lemma_phys_index_injective(self, x: int, y: int)
        requires
            self.wf(),
            self.byte_mapped(x),
            self.byte_mapped(y),
            x != y,
        ensures
            self.phys_index(x) != self.phys_index(y),
    {
        let ps = PAGE_SIZE as int;
        Self::lemma_page_base(x);
        Self::lemma_page_base(y);
        self.lemma_phys_index_bounds(x);
        self.lemma_phys_index_bounds(y);
        let bx = Self::page_base_of(x) as u64;
        let by = Self::page_base_of(y) as u64;
        let fx = self.frame_of(bx);
        let fy = self.frame_of(by);
        if bx == by {
            assert(x % ps != y % ps);
        } else {
            let ix = self.index_of(bx);
            let iy = self.index_of(by);
            assert(seq_matches(self.entries@, ix, bx));
            assert(seq_matches(self.entries@, iy, by));
            assert(ix != iy);
            assert(self.entries@[ix].frame != self.entries@[iy].frame);
            if self.phys_index(x) == self.phys_index(y) {
                vstd::arithmetic::div_mod::lemma_fundamental_div_mod_converse(
                    self.phys_index(x),
                    ps,
                    fx,
                    x % ps,
                );
                vstd::arithmetic::div_mod::lemma_fundamental_div_mod_converse(
                    self.phys_index(y),
                    ps,
                    fy,
                    y % ps,
                );
            }
        }
    }

    /// Physical position of the byte at mapped virtual address `a`.
    fn translate(&self, a: u64) -> (r: Option<usize>)
        requires
            self.wf(),
        ensures
            match r {
                Some(p) => {
                    &&& self.byte_mapped(a as int)
                    &&& p as int == self.phys_index(a as int)
                    &&& (p as int) < self.phys().len()
                },
                None => !self.byte_mapped(a as int),
            },
    {
        proof {
            Self::lemma_page_base(a as int);
        }
        let base = (a / (PAGE_SIZE as u64)) * (PAGE_SIZE as u64);
        match self.find_entry(base) {
            Some(i) => {
                let frame = self.entries[i].frame;
                proof {
                    assert(base as int == Self::page_base_of(a as int));
                    assert(frame as int == self.frame_of(base));
                    self.lemma_phys_index_bounds(a as int);
                    vstd::std_specs::vec::axiom_spec_len(&self.pmem);
                    assert(frame as int * (PAGE_SIZE as int) <= self.phys_index(a as int));
                }
                Some(frame * PAGE_SIZE + (a % (PAGE_SIZE as u64)) as usize)
            },
            None => None,
        }
    }

    /// Least address in `[addr, addr + len)` whose page is not mapped, as the
    /// payload of an `Unmapped` error.
    pub open spec fn first_unmapped(self, addr: int, len: int, a: int) -> bool {
        &&& addr <= a < addr + len
        &&& !self.byte_mapped(a)
        &&& forall|x: int| addr <= x < a ==> self.byte_mapped(x)
    }

    /// Checks that every byte of `[vaddr, vaddr + len)` lies on a mapped
    /// page; reports the exact first failure.
    fn check_range(&self, vaddr: u64, len: usize) -> (r: Result<(), MemoryError>)
        requires
            self.wf(),
        ensures
            match r {
                Ok(()) => {
                    &&& vaddr + len <= u64::MAX + 1
                    &&& self.range_mapped(vaddr as int, len as int)
                },
                Err(MemoryError::OutOfRange(a)) => {
                    &&& a == vaddr
                    &&& vaddr + len > u64::MAX + 1
                },
                Err(MemoryError::Unmapped(a)) => {
                    &&& vaddr + len <= u64::MAX + 1
                    &&& self.first_unmapped(vaddr as int, len as int, a as int)
                },
                _ => false,
            },
    {
        if len == 0 {
            return Ok(());
        }
        if (len - 1) as u64 > u64::MAX - vaddr {
            return Err(MemoryError::OutOfRange(vaddr));
        }
        let last: u64 = vaddr + (len - 1) as u64;
        proof {
            Self::lemma_page_base(vaddr as int);
            Self::lemma_page_base(last as int);
        }
        let first_base = (vaddr / (PAGE_SIZE as u64)) * (PAGE_SIZE as u64);
        let last_base = (last / (PAGE_SIZE as u64)) * (PAGE_SIZE as u64);
        let mut b: u64 = first_base;
        loop
            invariant
                self.wf(),
                len > 0,
                vaddr + len <= u64::MAX + 1,
                first_base as int == Self::page_base_of(vaddr as int),
                last as int == vaddr + len - 1,
                last_base as int == Self::page_base_of(last as int),
                first_base <= b <= last_base,
                b % (PAGE_SIZE as u64) == 0,
                forall|x: int|
                    vaddr <= x < vaddr + len && Self::page_base_of(x) < b
                        ==> self.byte_mapped(x),
            decreases last_base - b,
        {
            if self.find_entry(b).is_none() {
                let a = if b < vaddr {
                    vaddr
                } else {
                    b
                };
                proof {
                    Self::lemma_page_base(a as int);
                    assert(Self::page_base_of(a as int) == b) by {
                        if b < vaddr {
                            assert(Self::page_base_of(vaddr as int) == first_base);
                            assert(b == first_base) by {
                                Self::lemma_page_base(vaddr as int);
                                Self::lemma_page_base_aligned(b as int);
                                Self::lemma_page_base_offset(
                                    first_base,
                                    b as int - first_base as int,
                                );
                            };
                        } else {
                            Self::lemma_page_base_aligned(b as int);
                        }
                    };
                    assert forall|x: int| vaddr <= x < a implies self.byte_mapped(x) by {
                        Self::lemma_page_base(x);
                        assert(Self::page_base_of(x) < b) by {
                            vstd::arithmetic::div_mod::lemma_div_is_ordered(
                                x,
                                a as int,
                                PAGE_SIZE as int,
                            );
                            vstd::arithmetic::mul::lemma_mul_inequality(
                                x / (PAGE_SIZE as int),
                                (a as int) / (PAGE_SIZE as int),
                                PAGE_SIZE as int,
                            );
                            if Self::page_base_of(x) == b {
                                assert(x >= b);
                            }
                        };
                    }
                }
                return Err(MemoryError::Unmapped(a));
            }
            if b == last_base {
                proof {
                    Self::lemma_page_base_aligned(b as int);
                    assert forall|x: int| vaddr <= x < vaddr + len implies self.byte_mapped(
                        x,
                    ) by {
                        Self::lemma_page_base(x);
                        if Self::page_base_of(x) >= b {
                            vstd::arithmetic::div_mod::lemma_div_is_ordered(
                                x,
                                last as int,
                                PAGE_SIZE as int,
                            );
                            vstd::arithmetic::mul::lemma_mul_inequality(
                                x / (PAGE_SIZE as int),
                                (last as int) / (PAGE_SIZE as int),
                                PAGE_SIZE as int,
                            );
                            assert(Self::page_base_of(x) == b);
                        }
                    }
                }
                return Ok(());
            }
            proof {
                Self::lemma_page_base_aligned(b as int);
                assert(b + (PAGE_SIZE as u64) <= last_base) by {
                    assert(last_base % (PAGE_SIZE as u64) == 0) by {
                        Self::lemma_page_base_aligned(last_base as int);
                    };
                    assert((last_base - b) % (PAGE_SIZE as int) == 0) by {
                        vstd::arithmetic::div_mod::lemma_mod_adds(
                            last_base as int,
                            -(b as int),
                            PAGE_SIZE as int,
                        );
                        vstd::arithmetic::div_mod::lemma_mod_multiples_vanish(
                            -1,
                            b as int,
                            PAGE_SIZE as int,
                        );
                    };
                    if last_base - b < PAGE_SIZE as u64 {
                        vstd::arithmetic::div_mod::lemma_small_mod(
                            (last_base - b) as nat,
                            PAGE_SIZE as nat,
                        );
                    }
                };
            }
            b = b + PAGE_SIZE as u64;
        }
    }

    /// Reads `len` bytes starting at virtual address `vaddr`. Fails if the
    /// range wraps the address space or touches an unmapped page; host reads
    /// do not require the pages to carry the read permission.
    pub fn read(&self, vaddr: u64, len: usize) -> (r: Result<Vec<u8>, MemoryError>)
        requires
            self.wf(),
        ensures
            match r {
                Ok(v) => {
                    &&& v@.len() == len
                    &&& vaddr + len <= u64::MAX + 1
                    &&& self.range_mapped(vaddr as int, len as int)
                    &&& v@ == self.bytes_at(vaddr as int, len as int)
                },
                Err(MemoryError::OutOfRange(a)) => {
                    &&& a == vaddr
                    &&& vaddr + len > u64::MAX + 1
                },
                Err(MemoryError::Unmapped(a)) => {
                    &&& vaddr + len <= u64::MAX + 1
                    &&& self.first_unmapped(vaddr as int, len as int, a as int)
                },
                _ => false,
            },
    {
        self.check_range(vaddr, len)?;
        let mut v: Vec<u8> = Vec::new();
        let mut k: usize = 0;
        while k < len
            invariant
                self.wf(),
                vaddr + len <= u64::MAX + 1,
                self.range_mapped(vaddr as int, len as int),
                k <= len,
                v@.len() == k,
                forall|j: int| 0 <= j < k ==> v@[j] == self.byte_at(vaddr + j),
            decreases len - k,
        {
            let a = vaddr + k as u64;
            match self.translate(a) {
                Some(p) => {
                    v.push(self.pmem[p]);
                },
                None => {
                    proof {
                        assert(self.byte_mapped(vaddr as int + k as int));
                    }
                    return Err(MemoryError::Unmapped(a));
                },
            }
            k += 1;
        }
        proof {
            assert(v@ =~= self.bytes_at(vaddr as int, len as int));
        }
        Ok(v)
    }

    /// Whether page base `b` holds a byte of `[addr, addr + len)`.
    pub open spec fn page_in_range(b: u64, addr: int, len: int) -> bool {
        &&& len > 0
        &&& b % (PAGE_SIZE as u64) == 0
        &&& Self::page_base_of(addr) <= b <= Self::page_base_of(addr + len - 1)
    }

    /// Two memories whose entry tables agree on bases, frames and rights
    /// resolve lookups identically.
    proof fn lemma_same_bases_lookup(a: Self, b: Self)
        requires
            a.wf(),
            b.wf(),
            a.entries@.len() == b.entries@.len(),
            forall|i: int|
                0 <= i < a.entries@.len() ==> (#[trigger] a.entries@[i]).base
                    == b.entries@[i].base && a.entries@[i].frame == b.entries@[i].frame
                    && a.entries@[i].perms == b.entries@[i].perms,
        ensures
            forall|base: u64| a.is_mapped(base) <==> b.is_mapped(base),
            forall|base: u64|
                #[trigger] a.is_mapped(base) ==> a.index_of(base) == b.index_of(base)
                    && a.perms_of(base) == b.perms_of(base) && a.frame_of(base)
                    == b.frame_of(base),
    {
        assert forall|base: u64| a.is_mapped(base) implies b.is_mapped(base) by {
            let i = a.index_of(base);
            assert(seq_matches(a.entries@, i, base));
            assert(seq_matches(b.entries@, i, base));
        }
        assert forall|base: u64| b.is_mapped(base) implies a.is_mapped(base) by {
            let i = b.index_of(base);
            assert(seq_matches(b.entries@, i, base));
            assert(seq_matches(a.entries@, i, base));
        }
        assert forall|base: u64| #[trigger] a.is_mapped(base) implies a.index_of(base)
            == b.index_of(base) && a.perms_of(base) == b.perms_of(base) && a.frame_of(base)
            == b.frame_of(base) by {
            let i = a.index_of(base);
            assert(seq_matches(a.entries@, i, base));
            assert(seq_matches(b.entries@, i, base));
            b.lemma_entry_determines_index(i);
        }
    }

    /// Writes `data` at virtual address `vaddr` and marks the touched pages
    /// dirty. Fails without changing anything if the range wraps the address
    /// space or touches an unmapped page; host writes do not require the
    /// pages to carry the write permission.
    pub fn write(&mut self, vaddr: u64, data: &[u8]) -> (r: Result<(), MemoryError>)
        requires
            old(self).wf(),
        ensures
            final(self).wf(),
            match r {
                Ok(()) => {
                    &&& vaddr + data@.len() <= u64::MAX + 1
                    &&& old(self).range_mapped(vaddr as int, data@.len() as int)
                    &&& final(self).bytes_at(vaddr as int, data@.len() as int) == data@
                    &&& forall|x: int|
                        old(self).byte_mapped(x) && !(vaddr <= x < vaddr + data@.len())
                            ==> final(self).byte_at(x) == old(self).byte_at(x)
                    &&& forall|b: u64|
                        #[trigger] final(self).is_mapped(b) <==> old(self).is_mapped(b)
                    &&& forall|b: u64|
                        #[trigger] old(self).is_mapped(b) ==> final(self).perms_of(b)
                            == old(self).perms_of(b) && final(self).frame_of(b)
                            == old(self).frame_of(b)
                    &&& forall|b: u64|
                        #[trigger] old(self).is_mapped(b) ==> final(self).dirty_of(b) == (
                        old(self).dirty_of(b) || Self::page_in_range(
                            b,
                            vaddr as int,
                            data@.len() as int,
                        ))
                    &&& final(self).phys().len() == old(self).phys().len()
                    &&& final(self).next_free_frame() == old(self).next_free_frame()
                    &&& final(self).mapped_count() == old(self).mapped_count()
                    &&& final(self).mappings_view().len() == old(self).mappings_view().len()
                    &&& forall|i: int|
                        0 <= i < old(self).mappings_view().len() ==> {
                            let m = #[trigger] old(self).mappings_view()[i];
                            final(self).mappings_view()[i] == Mapping {
                                address: m.address,
                                permissions: m.permissions,
                                dirty: m.dirty || Self::page_in_range(
                                    m.address,
                                    vaddr as int,
                                    data@.len() as int,
                                ),
                            }
                        }
                },
                Err(MemoryError::OutOfRange(a)) => {
                    &&& a == vaddr
                    &&& vaddr + data@.len() > u64::MAX + 1
                    &&& *final(self) == *old(self)
                },
                Err(MemoryError::Unmapped(a)) => {
                    &&& vaddr + data@.len() <= u64::MAX + 1
                    &&& old(self).first_unmapped(vaddr as int, data@.len() as int, a as int)
                    &&& *final(self) == *old(self)
                },
                _ => false,
            },
    {
        let len = data.len();
        self.check_range(vaddr, len)?;
        let ghost orig = *self;
        // Copy the bytes; only the physical store changes here.
        let mut k: usize = 0;
        while k < len
            invariant
                orig.wf(),
                self.wf(),
                data@.len() == len,
                vaddr + len <= u64::MAX + 1,
                orig.range_mapped(vaddr as int, len as int),
                k <= len,
                self.entries@ == orig.entries@,
                self.tables@ == orig.tables@,
                self.next_frame == orig.next_frame,
                self.pmem@.len() == orig.pmem@.len(),
                forall|j: int| 0 <= j < k ==> self.byte_at(vaddr + j) == data@[j],
                forall|x: int|
                    orig.byte_mapped(x) && !(vaddr <= x < vaddr + k) ==> self.byte_at(x)
                        == orig.byte_at(x),
            decreases len - k,
        {
            let a = vaddr + k as u64;
            let ghost prev = *self;
            match self.translate(a) {
                Some(p) => {
                    self.pmem[p] = data[k];
                    proof {
                        assert(orig.byte_mapped(a as int));
                        assert(prev.byte_mapped(a as int));
                        assert forall|x: int|
                            orig.byte_mapped(x) && !(vaddr <= x < vaddr + k + 1)
                                implies self.byte_at(x) == orig.byte_at(x) by {
                            assert(prev.byte_mapped(x));
                            prev.lemma_phys_index_injective(x, a as int);
                            prev.lemma_phys_index_bounds(x);
                        }
                        assert forall|j: int| 0 <= j < k + 1 implies self.byte_at(vaddr + j)
                            == data@[j] by {
                            if j < k {
                                assert(orig.byte_mapped(vaddr + j));
                                assert(prev.byte_mapped(vaddr + j));
                                prev.lemma_phys_index_injective(vaddr + j, a as int);
                                prev.lemma_phys_index_bounds(vaddr + j);
                            }
                        }
                    }
                },
                None => {
                    proof {
                        assert(orig.byte_mapped(vaddr as int + k as int));
                        assert(self.byte_mapped(vaddr as int + k as int));
                    }
                    return Err(MemoryError::Unmapped(a));
                },
            }
            k += 1;
        }
        // Mark every touched page dirty.
        if len > 0 {
            let last: u64 = vaddr + (len - 1) as u64;
            proof {
                Self::lemma_page_base(vaddr as int);
                Self::lemma_page_base(last as int);
            }
            let first_base = (vaddr / (PAGE_SIZE as u64)) * (PAGE_SIZE as u64);
            let last_base = (last / (PAGE_SIZE as u64)) * (PAGE_SIZE as u64);
            let ghost mid = *self;
            let n = self.entries.len();
            let mut i: usize = 0;
            while i < n
                invariant
                    mid.wf(),
                    self.wf(),
                    len > 0,
                    vaddr + len <= u64::MAX + 1,
                    last as int == vaddr + len - 1,
                    first_base as int == Self::page_base_of(vaddr as int),
                    last_base as int == Self::page_base_of(last as int),
                    n == self.entries@.len(),
                    i <= n,
                    self.entries@.len() == mid.entries@.len(),
                    self.pmem == mid.pmem,
                    self.next_frame == mid.next_frame,
                    self.tables == mid.tables,
                    forall|j: int|
                        0 <= j < n ==> (#[trigger] self.entries@[j]).base
                            == mid.entries@[j].base && self.entries@[j].frame
                            == mid.entries@[j].frame && self.entries@[j].perms
                            == mid.entries@[j].perms,
                    forall|j: int|
                        0 <= j < i ==> (#[trigger] self.entries@[j]).dirty == (
                        mid.entries@[j].dirty || Self::page_in_range(
                            mid.entries@[j].base,
                            vaddr as int,
                            len as int,
                        )),
                    forall|j: int|
                        i <= j < n ==> (#[trigger] self.entries@[j]).dirty
                            == mid.entries@[j].dirty,
                decreases n - i,
            {
                let b = self.entries[i].base;
                if b >= first_base && b <= last_base {
                    let mut e = self.entries[i];
                    e.dirty = true;
                    self.entries[i] = e;
                }
                i += 1;
            }
            proof {
                Self::lemma_same_bases_lookup(mid, *self);
                Self::lemma_same_bases_lookup(orig, *self);
                assert forall|b: u64| #[trigger] orig.is_mapped(b) implies self.dirty_of(b)
                    == (orig.dirty_of(b) || Self::page_in_range(b, vaddr as int, len as int))
                    by {
                    let j = orig.index_of(b);
                    assert(seq_matches(orig.entries@, j, b));
                    orig.lemma_entry_determines_index(j);
                    self.lemma_entry_determines_index(j);
                }
                assert forall|i2: int| 0 <= i2 < orig.mappings_view().len()
                    implies #[trigger] self.mappings_view()[i2] == Mapping {
                        address: orig.mappings_view()[i2].address,
                        permissions: orig.mappings_view()[i2].permissions,
                        dirty: orig.mappings_view()[i2].dirty || Self::page_in_range(
                            orig.mappings_view()[i2].address,
                            vaddr as int,
                            len as int,
                        ),
                    } by {
                    assert(self.entries@[i2].base == orig.entries@[i2].base);
                }
                assert forall|j: int| 0 <= j < len implies self.byte_at(vaddr + j) == data@[j]
                    by {
                    assert(orig.byte_mapped(vaddr + j));
                    let pb = Self::page_base_of(vaddr + j) as u64;
                    assert(mid.is_mapped(pb));
                    assert(self.frame_of(pb) == mid.frame_of(pb));
                    assert(mid.byte_at(vaddr + j) == data@[j]);
                }
                assert forall|x: int|
                    orig.byte_mapped(x) && !(vaddr <= x < vaddr + len) implies self.byte_at(x)
                        == orig.byte_at(x) by {
                    let pb = Self::page_base_of(x) as u64;
                    assert(mid.is_mapped(pb));
                    assert(self.frame_of(pb) == mid.frame_of(pb));
                    assert(mid.byte_at(x) == orig.byte_at(x));
                }
                assert(self.bytes_at(vaddr as int, len as int) =~= data@);
            }
        } else {
            proof {
                assert(self.bytes_at(vaddr as int, 0) =~= data@);
                Self::lemma_same_bases_lookup(orig, *self);
                assert forall|b: u64| #[trigger] orig.is_mapped(b) implies self.dirty_of(b)
                    == (orig.dirty_of(b) || Self::page_in_range(b, vaddr as int, 0)) by {
                    let j = orig.index_of(b);
                    assert(seq_matches(orig.entries@, j, b));
                    orig.lemma_entry_determines_index(j);
                    self.lemma_entry_determines_index(j);
                }
            }
        }
        Ok(())
    }

    /// Clears the software dirty flag of every mapped page.
    pub fn clear_dirty(&mut self)
        requires
            old(self).wf(),
        ensures
            final(self).wf(),
            forall|b: u64| #[trigger] final(self).is_mapped(b) <==> old(self).is_mapped(b),
            forall|b: u64|
                #[trigger] old(self).is_mapped(b) ==> final(self).perms_of(b) == old(self).perms_of(b) && final(self).frame_of(b) == old(self).frame_of(b)
                    && final(self).dirty_of(b) == false,
            final(self).phys() == old(self).phys(),
            final(self).next_free_frame() == old(self).next_free_frame(),
            final(self).mapped_count() == old(self).mapped_count(),
            final(self).mappings_view().len() == old(self).mappings_view().len(),
            forall|i: int|
                0 <= i < old(self).mappings_view().len() ==> {
                    let m = #[trigger] old(self).mappings_view()[i];
                    final(self).mappings_view()[i] == Mapping {
                        address: m.address,
                        permissions: m.permissions,
                        dirty: false,
                    }
                },
    {
        let ghost orig = *self;
        let n = self.entries.len();
        let mut i: usize = 0;
        while i < n
            invariant
                orig.wf(),
                self.wf(),
                n == self.entries@.len(),
                i <= n,
                self.entries@.len() == orig.entries@.len(),
                self.pmem == orig.pmem,
                self.next_frame == orig.next_frame,
                self.tables == orig.tables,
                forall|j: int|
                    0 <= j < n ==> (#[trigger] self.entries@[j]).base == orig.entries@[j].base
                        && self.entries@[j].frame == orig.entries@[j].frame
                        && self.entries@[j].perms == orig.entries@[j].perms,
                forall|j: int| 0 <= j < i ==> (#[trigger] self.entries@[j]).dirty == false,
                forall|j: int|
                    i <= j < n ==> (#[trigger] self.entries@[j]).dirty
                        == orig.entries@[j].dirty,
            decreases n - i,
        {
            let mut e = self.entries[i];
            e.dirty = false;
            self.entries[i] = e;
            i += 1;
        }
        proof {
            Self::lemma_same_bases_lookup(orig, *self);
            assert forall|b: u64| #[trigger] orig.is_mapped(b) implies self.dirty_of(b)
                == false by {
                let j = orig.index_of(b);
                assert(seq_matches(orig.entries@, j, b));
                orig.lemma_entry_determines_index(j);
                self.lemma_entry_determines_index(j);
            }
            assert forall|i2: int| 0 <= i2 < orig.mappings_view().len()
                implies #[trigger] self.mappings_view()[i2] == Mapping {
                    address: orig.mappings_view()[i2].address,
                    permissions: orig.mappings_view()[i2].permissions,
                    dirty: false,
                } by {
                assert(self.entries@[i2].base == orig.entries@[i2].base);
            }
        }
    }

    /// All mapped pages, in order of creation.
    pub fn mappings(&self) -> (r: Vec<Mapping>)
        ensures
            r@ == self.mappings_view(),
    {
        let n = self.entries.len();
        let mut r: Vec<Mapping> = Vec::new();
        let mut i: usize = 0;
        while i < n
            invariant
                n == self.entries@.len(),
                i <= n,
                r@.len() == i,
                forall|j: int| 0 <= j < i ==> r@[j] == self.mappings_view()[j],
            decreases n - i,
        {
            let e = self.entries[i];
            r.push(Mapping { address: e.base, permissions: e.perms, dirty: e.dirty });
            i += 1;
        }
        proof {
            assert(r@ =~= self.mappings_view());
        }
        r
    }

    /// The mapped pages whose software dirty flag is set, in order of
    /// creation.
    pub fn dirty_mappings(&self) -> (r: Vec<Mapping>)
        ensures
            r@ == self.mappings_view().filter(|m: Mapping| m.dirty),
    {
        let n = self.entries.len();
        let mut r: Vec<Mapping> = Vec::new();
        let mut i: usize = 0;
        while i < n
            invariant
                n == self.entries@.len(),
                i <= n,
                r@ == self.mappings_view().take(i as int).filter(|m: Mapping| m.dirty),
            decreases n - i,
        {
            let e = self.entries[i];
            proof {
                assert(self.mappings_view().take(i as int + 1).drop_last()
                    =~= self.mappings_view().take(i as int));
                assert(self.mappings_view().take(i as int + 1).last()
                    == self.mappings_view()[i as int]);
                self.mappings_view().take(i as int + 1).filter_lemma(|m: Mapping| m.dirty);
                reveal_with_fuel(Seq::filter, 2);
            }
            if e.dirty {
                r.push(Mapping { address: e.base, permissions: e.perms, dirty: e.dirty });
            }
            i += 1;
        }
        proof {
            assert(self.mappings_view().take(n as int) =~= self.mappings_view());
        }
        r
    }

    /// Reads the bytes of `[pa, pa + len)` straight from the physical store.
    pub fn read_phys(&self, pa: usize, len: usize) -> (r: Result<Vec<u8>, MemoryError>)
        ensures
            match r {
                Ok(v) => {
                    &&& pa + len <= self.phys().len()
                    &&& v@ == self.phys().subrange(pa as int, pa + len)
                },
                Err(MemoryError::OutOfRange(a)) => {
                    &&& a == pa as u64
                    &&& pa + len > self.phys().len()
                },
                _ => false,
            },
    {
        if len > self.pmem.len() || pa > self.pmem.len() - len {
            return Err(MemoryError::OutOfRange(pa as u64));
        }
        let mut v: Vec<u8> = Vec::new();
        let mut k: usize = 0;
        while k < len
            invariant
                pa + len <= self.pmem@.len(),
                k <= len,
                v@.len() == k,
                forall|j: int| 0 <= j < k ==> v@[j] == self.phys()[pa + j],
            decreases len - k,
        {
            proof {
                vstd::std_specs::vec::axiom_spec_len(&self.pmem);
            }
            v.push(self.pmem[pa + k]);
            k += 1;
        }
        proof {
            assert(v@ =~= self.phys().subrange(pa as int, pa + len));
        }
        Ok(v)
    }

    /// Writes `data` straight into the physical store at `[pa, pa + len)`,
    /// bypassing the page table: mappings, permissions and dirty flags are
    /// untouched.
    pub fn write_phys(&mut self, pa: usize, data: &[u8]) -> (r: Result<(), MemoryError>)
        requires
            old(self).wf(),
        ensures
            final(self).wf(),
            match r {
                Ok(()) => {
                    &&& pa + data@.len() <= old(self).phys().len()
                    &&& final(self).phys().len() == old(self).phys().len()
                    &&& forall|p: int|
                        0 <= p < old(self).phys().len() ==> #[trigger] final(self).phys()[p]
                            == if pa <= p < pa + data@.len() {
                            data@[p - pa]
                        } else {
                            old(self).phys()[p]
                        }
                    &&& forall|b: u64|
                        #[trigger] final(self).is_mapped(b) <==> old(self).is_mapped(b)
                    &&& forall|b: u64|
                        #[trigger] old(self).is_mapped(b) ==> final(self).perms_of(b)
                            == old(self).perms_of(b) && final(self).frame_of(b)
                            == old(self).frame_of(b) && final(self).dirty_of(b)
                            == old(self).dirty_of(b)
                    &&& final(self).next_free_frame() == old(self).next_free_frame()
                    &&& final(self).mappings_view() == old(self).mappings_view()
                },
                Err(MemoryError::OutOfRange(a)) => {
                    &&& a == pa as u64
                    &&& pa + data@.len() > old(self).phys().len()
                    &&& *final(self) == *old(self)
                },
                _ => false,
            },
    {
        let len = data.len();
        if len > self.pmem.len() || pa > self.pmem.len() - len {
            return Err(MemoryError::OutOfRange(pa as u64));
        }
        let ghost orig = *self;
        let mut k: usize = 0;
        while k < len
            invariant
                orig.wf(),
                data@.len() == len,
                pa + len <= orig.phys().len(),
                k <= len,
                self.entries@ == orig.entries@,
                self.tables@ == orig.tables@,
                self.next_frame == orig.next_frame,
                self.pmem@.len() == orig.pmem@.len(),
                forall|p: int|
                    0 <= p < orig.phys().len() ==> #[trigger] self.phys()[p] == if pa <= p
                        < pa + k {
                        data@[p - pa]
                    } else {
                        orig.phys()[p]
                    },
            decreases len - k,
        {
            proof {
                vstd::std_specs::vec::axiom_spec_len(&self.pmem);
            }
            let ghost prev = *self;
            self.pmem[pa + k] = data[k];
            proof {
                assert(self.pmem@ == prev.pmem@.update(pa + k, data@[k as int]));
                assert forall|p: int|
                    0 <= p < orig.phys().len() implies #[trigger] self.phys()[p] == (if pa <= p
                        < pa + k + 1 {
                        data@[p - pa]
                    } else {
                        orig.phys()[p]
                    }) by {
                    if p != pa + k {
                        assert(self.phys()[p] == prev.phys()[p]);
                    }
                }
            }
            k += 1;
        }
        Ok(())
    }

    /// Reads the little-endian 64-bit value at virtual address `vaddr`.
    pub fn read_val(&self, vaddr: u64) -> (r: Result<u64, MemoryError>)
        requires
            self.wf(),
        ensures
            match r {
                Ok(x) => {
                    &&& vaddr + 8 <= u64::MAX + 1
                    &&& self.range_mapped(vaddr as int, 8)
                    &&& x == vstd::bytes::spec_u64_from_le_bytes(self.bytes_at(vaddr as int, 8))
                },
                Err(MemoryError::OutOfRange(a)) => {
                    &&& a == vaddr
                    &&& vaddr + 8 > u64::MAX + 1
                },
                Err(MemoryError::Unmapped(a)) => {
                    &&& vaddr + 8 <= u64::MAX + 1
                    &&& self.first_unmapped(vaddr as int, 8, a as int)
                },
                _ => false,
            },
    {
        let v = self.read(vaddr, 8)?;
        Ok(vstd::bytes::u64_from_le_bytes(v.as_slice()))
    }

    /// Writes `val` at virtual address `vaddr` as eight little-endian bytes.
    pub fn write_val(&mut self, vaddr: u64, val: u64) -> (r: Result<(), MemoryError>)
        requires
            old(self).wf(),
        ensures
            final(self).wf(),
            match r {
                Ok(()) => {
                    &&& vaddr + 8 <= u64::MAX + 1
                    &&& old(self).range_mapped(vaddr as int, 8)
                    &&& final(self).bytes_at(vaddr as int, 8)
                        == vstd::bytes::spec_u64_to_le_bytes(val)
                    &&& forall|x: int|
                        old(self).byte_mapped(x) && !(vaddr <= x < vaddr + 8) ==> final(self).byte_at(x) == old(self).byte_at(x)
                    &&& forall|b: u64|
                        #[trigger] final(self).is_mapped(b) <==> old(self).is_mapped(b)
                    &&& forall|b: u64|
                        #[trigger] old(self).is_mapped(b) ==> final(self).perms_of(b)
                            == old(self).perms_of(b) && final(self).frame_of(b)
                            == old(self).frame_of(b)
                    &&& forall|b: u64|
                        #[trigger] old(self).is_mapped(b) ==> final(self).dirty_of(b) == (
                        old(self).dirty_of(b) || Self::page_in_range(b, vaddr as int, 8))
                    &&& final(self).phys().len() == old(self).phys().len()
                    &&& final(self).next_free_frame() == old(self).next_free_frame()
                    &&& final(self).mapped_count() == old(self).mapped_count()
                },
                Err(MemoryError::OutOfRange(a)) => {
                    &&& a == vaddr
                    &&& vaddr + 8 > u64::MAX + 1
                    &&& *final(self) == *old(self)
                },
                Err(MemoryError::Unmapped(a)) => {
                    &&& vaddr + 8 <= u64::MAX + 1
                    &&& old(self).first_unmapped(vaddr as int, 8, a as int)
                    &&& *final(self) == *old(self)
                },
                _ => false,
            },
    {
        let bytes = vstd::bytes::u64_to_le_bytes(val);
        proof {
            vstd::bytes::lemma_auto_spec_u64_to_from_le_bytes();
        }
        self.write(vaddr, bytes.as_slice())
    }

    /// A run of pages mapped at consecutive bases covers its whole byte
    /// range.
    pub proof fn lemma_pages_range_mapped(self, vaddr: u64, np: int)
        requires
            self.wf(),
            vaddr % (PAGE_SIZE as u64) == 0,
            0 <= np,
            vaddr + np * (PAGE_SIZE as int) <= u64::MAX + 1,
            forall|k: int| 0 <= k < np ==> self.is_mapped(#[trigger] page_at(vaddr, k)),
        ensures
            self.range_mapped(vaddr as int, np * (PAGE_SIZE as int)),
    {
        let ps = PAGE_SIZE as int;
        assert forall|a: int| vaddr <= a < vaddr + np * ps implies self.byte_mapped(a) by {
            let d = a - vaddr;
            let k = d / ps;
            vstd::arithmetic::div_mod::lemma_fundamental_div_mod(d, ps);
            vstd::arithmetic::div_mod::lemma_mod_bound(d, ps);
            vstd::arithmetic::div_mod::lemma_div_pos_is_pos(d, ps);
            assert(k < np) by {
                if k >= np {
                    vstd::arithmetic::mul::lemma_mul_inequality(np, k, ps);
                }
            };
            assert(self.is_mapped(page_at(vaddr, k)));
            assert(page_at(vaddr, k) % (PAGE_SIZE as u64) == 0) by {
                vstd::arithmetic::div_mod::lemma_mod_multiples_vanish(k, vaddr as int, ps);
                vstd::arithmetic::mul::lemma_mul_inequality(k + 1, np, ps);
                assert((k + 1) * ps == k * ps + ps) by (nonlinear_arith);
            };
            assert(vaddr + k * ps + ps <= u64::MAX + 1) by {
                vstd::arithmetic::mul::lemma_mul_inequality(k + 1, np, ps);
                assert((k + 1) * ps == k * ps + ps) by (nonlinear_arith);
            };
            Self::lemma_page_base_offset(page_at(vaddr, k), d % ps);
            assert(Self::page_base_of(a) == page_at(vaddr, k));
        }
    }

    /// Marks dirty every mapped page whose backing frame the hypervisor's
    /// dirty bitmap flags: the bitmap indexes guest physical pages, which
    /// are this memory's frames. Everything else is untouched.
    pub fn mark_dirty_frames(&mut self, bitmap: &Vec<u64>)
        requires
            old(self).wf(),
        ensures
            final(self).wf(),
            final(self).phys() == old(self).phys(),
            final(self).next_free_frame() == old(self).next_free_frame(),
            forall|b: u64| #[trigger] final(self).is_mapped(b) <==> old(self).is_mapped(b),
            forall|b: u64|
                #[trigger] old(self).is_mapped(b) ==> final(self).perms_of(b) == old(self).perms_of(b) && final(self).frame_of(b) == old(self).frame_of(b) && final(self).dirty_of(b) == (old(self).dirty_of(b) || bitmap_bit(
                    bitmap@,
                    old(self).frame_of(b),
                )),
            final(self).mappings_view().len() == old(self).mappings_view().len(),
            forall|i: int|
                0 <= i < old(self).mappings_view().len() ==> {
                    let m = #[trigger] old(self).mappings_view()[i];
                    final(self).mappings_view()[i] == Mapping {
                        address: m.address,
                        permissions: m.permissions,
                        dirty: m.dirty || bitmap_bit(bitmap@, old(self).frame_of(m.address)),
                    }
                },
    {
        let ghost orig = *self;
        let n = self.entries.len();
        let nwords = bitmap.len();
        let mut i: usize = 0;
        while i < n
            invariant
                orig.wf(),
                self.wf(),
                n == self.entries@.len(),
                nwords == bitmap@.len(),
                i <= n,
                self.entries@.len() == orig.entries@.len(),
                self.pmem == orig.pmem,
                self.next_frame == orig.next_frame,
                self.tables == orig.tables,
                forall|j: int|
                    0 <= j < n ==> (#[trigger] self.entries@[j]).base == orig.entries@[j].base
                        && self.entries@[j].frame == orig.entries@[j].frame
                        && self.entries@[j].perms == orig.entries@[j].perms,
                forall|j: int|
                    0 <= j < i ==> (#[trigger] self.entries@[j]).dirty == (
                    orig.entries@[j].dirty || bitmap_bit(bitmap@, orig.entries@[j].frame as int)),
                forall|j: int|
                    i <= j < n ==> (#[trigger] self.entries@[j]).dirty
                        == orig.entries@[j].dirty,
            decreases n - i,
        {
            let frame = self.entries[i].frame;
            let word = frame / 64;
            let bit = (frame % 64) as u64;
            let marked = word < nwords && (bitmap[word] >> bit) & 1 == 1;
            proof {
                vstd::arithmetic::div_mod::lemma_fundamental_div_mod(frame as int, 64);
                vstd::arithmetic::div_mod::lemma_mod_bound(frame as int, 64);
                assert(marked == bitmap_bit(bitmap@, frame as int));
            }
            if marked {
                let mut e = self.entries[i];
                e.dirty = true;
                self.entries[i] = e;
            }
            i += 1;
        }
        proof {
            Self::lemma_same_bases_lookup(orig, *self);
            assert forall|b: u64| #[trigger] orig.is_mapped(b) implies self.dirty_of(b) == (
            orig.dirty_of(b) || bitmap_bit(bitmap@, orig.frame_of(b))) by {
                let j = orig.index_of(b);
                assert(seq_matches(orig.entries@, j, b));
                orig.lemma_entry_determines_index(j);
                self.lemma_entry_determines_index(j);
            }
            assert forall|i2: int| 0 <= i2 < orig.mappings_view().len()
                implies #[trigger] self.mappings_view()[i2] == Mapping {
                    address: orig.mappings_view()[i2].address,
                    permissions: orig.mappings_view()[i2].permissions,
                    dirty: orig.mappings_view()[i2].dirty || bitmap_bit(
                        bitmap@,
                        orig.frame_of(orig.mappings_view()[i2].address),
                    ),
                } by {
                assert(self.entries@[i2].base == orig.entries@[i2].base);
                orig.lemma_entry_determines_index(i2);
            }
        }
    }

    /// Each record of `mappings_view` describes a mapped page: its address
    /// is mapped with exactly the record's rights and dirty flag.
    pub proof fn lemma_mappings_view_entry(self, i: int)
        requires
            self.wf(),
            0 <= i < self.mappings_view().len(),
        ensures
            ({
                let m = self.mappings_view()[i];
                &&& self.is_mapped(m.address)
                &&& self.perms_of(m.address) == m.permissions
                &&& self.dirty_of(m.address) == m.dirty
            }),
    {
        self.lemma_entry_determines_index(i);
    }

    /// Every mapped page appears in `mappings_view` under its address.
    pub proof fn lemma_mapped_has_view_entry(self, b: u64)
        requires
            self.wf(),
            self.is_mapped(b),
        ensures
            exists|i: int|
                0 <= i < self.mappings_view().len() && #[trigger] self.mappings_view()[i].address
                    == b,
    {
        let j = self.index_of(b);
        assert(seq_matches(self.entries@, j, b));
        assert(self.mappings_view()[j].address == b);
    }

    /// An independent copy: same mappings, same rights and dirty flags,
    /// same physical contents, sharing nothing with the original.
    pub fn duplicate(&self) -> (r: VirtualMemory)
        requires
            self.wf(),
        ensures
            r.wf(),
            r.phys() == self.phys(),
            r.next_free_frame() == self.next_free_frame(),
            r.mappings_view() == self.mappings_view(),
            forall|b: u64| #[trigger] r.is_mapped(b) <==> self.is_mapped(b),
            forall|b: u64|
                #[trigger] self.is_mapped(b) ==> r.perms_of(b) == self.perms_of(b)
                    && r.dirty_of(b) == self.dirty_of(b) && r.frame_of(b) == self.frame_of(b),
    {
        let n = self.entries.len();
        let mut entries: Vec<PageEntry> = Vec::new();
        let mut i: usize = 0;
        while i < n
            invariant
                n == self.entries@.len(),
                i <= n,
                entries@.len() == i,
                forall|j: int| 0 <= j < i ==> entries@[j] == self.entries@[j],
            decreases n - i,
        {
            entries.push(self.entries[i]);
            i += 1;
        }
        let nt = self.tables.len();
        let mut tables: Vec<TableRec> = Vec::new();
        let mut i: usize = 0;
        while i < nt
            invariant
                nt == self.tables@.len(),
                i <= nt,
                tables@.len() == i,
                forall|j: int| 0 <= j < i ==> tables@[j] == self.tables@[j],
            decreases nt - i,
        {
            tables.push(self.tables[i]);
            i += 1;
        }
        let len = self.pmem.len();
        let mut pmem: Vec<u8> = Vec::new();
        let mut k: usize = 0;
        while k < len
            invariant
                len == self.pmem@.len(),
                k <= len,
                pmem@.len() == k,
                forall|j: int| 0 <= j < k ==> pmem@[j] == self.pmem@[j],
            decreases len - k,
        {
            pmem.push(self.pmem[k]);
            k += 1;
        }
        let r = VirtualMemory { entries, tables, pmem, next_frame: self.next_frame };
        proof {
            assert(r.entries@ =~= self.entries@);
            assert(r.tables@ =~= self.tables@);
            assert(r.pmem@ =~= self.pmem@);
        }
        r
    }

    /// Total size of the physical backing store in bytes.
    pub fn host_memory_size(&self) -> (r: usize)
        ensures
            r == self.phys().len(),
    {
        self.pmem.len()
    }

    /// The physical backing store, for an embedder that must hand its
    /// location to the hypervisor.
    pub fn phys_slice(&self) -> (r: &Vec<u8>)
        ensures
            r@ == self.phys(),
    {
        &self.pmem
    }

    /// Physical address of the page-directory root: the reserved frame at
    /// the start of the backing store.
    pub fn page_directory(&self) -> (r: u64)
        ensures
            r == 0,
    {
        0
    }
}

/// `n` rounded up to the next multiple of `PAGE_SIZE`, with zero rounded up
/// to one whole page.
pub open spec fn spec_round_up_to_page(n: int) -> int {
    if n % (PAGE_SIZE as int) == 0 && n > 0 {
        n
    } else {
        (n / (PAGE_SIZE as int)) * (PAGE_SIZE as int) + (PAGE_SIZE as int)
    }
}

/// Byte preservation for mapped bytes composes across two steps that keep
/// the mapping records.
proof fn lemma_chain_preserves(m0: VirtualMemory, m1: VirtualMemory, m2: VirtualMemory)
    requires
        m1.entries@ == m0.entries@,
        m2.entries@ == m1.entries@,
        forall|x: int| #[trigger] m0.byte_mapped(x) ==> m1.byte_at(x) == m0.byte_at(x),
        forall|x: int| #[trigger] m1.byte_mapped(x) ==> m2.byte_at(x) == m1.byte_at(x),
    ensures
        forall|x: int| #[trigger] m0.byte_mapped(x) ==> m2.byte_at(x) == m0.byte_at(x),
{
    assert forall|x: int| #[trigger] m0.byte_mapped(x) implies m2.byte_at(x) == m0.byte_at(
        x,
    ) by {
        assert(m1.byte_mapped(x));
    }
}

/// Distinct page indices give distinct page base addresses, as long as both
/// pages lie below the top of the address space.
proof fn lemma_distinct_page_bases(vaddr: u64, i: int, j: int)
    requires
        i != j,
        0 <= i,
        0 <= j,
        vaddr + i * (PAGE_SIZE as int) <= u64::MAX,
        vaddr + j * (PAGE_SIZE as int) <= u64::MAX,
    ensures
        (vaddr + i * (PAGE_SIZE as int)) as u64 != (vaddr + j * (PAGE_SIZE as int)) as u64,
{
    assert(i * (PAGE_SIZE as int) != j * (PAGE_SIZE as int)) by (nonlinear_arith)
        requires
            i != j,
    ;
}

proof fn lemma_round_up_to_page(n: int)
    requires
        n >= 0,
    ensures
        spec_round_up_to_page(n) % (PAGE_SIZE as int) == 0,
        n <= spec_round_up_to_page(n) < n + (PAGE_SIZE as int) + (PAGE_SIZE as int),
        spec_round_up_to_page(n) >= PAGE_SIZE as int,
{
    vstd::arithmetic::div_mod::lemma_fundamental_div_mod(n, PAGE_SIZE as int);
    if !(n % (PAGE_SIZE as int) == 0 && n > 0) {
        assert(((n / (PAGE_SIZE as int)) * (PAGE_SIZE as int) + (PAGE_SIZE as int)) % (
        PAGE_SIZE as int) == 0) by {
            vstd::arithmetic::div_mod::lemma_mod_multiples_vanish(
                n / (PAGE_SIZE as int) + 1,
                0,
                PAGE_SIZE as int,
            );
        };
    }
}

} // verus!
