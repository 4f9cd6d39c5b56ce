//! Incremental restore driven by the hypervisor's dirty log: the bitmap
//! marks one bit per guest page, and every marked page is copied back from
//! a reference memory, walking each word's set bits by clearing the lowest
//! one at a time.

use vstd::prelude::*;
use vstd::std_specs::bits::axiom_u64_trailing_zeros;
use vstd::std_specs::bits::u64_trailing_zeros;
use crate::memory::bitmap_bit;
use crate::memory::MemoryError;
use crate::memory::VirtualMemory;
use crate::memory::PAGE_SIZE;

verus! {

/// Whether the restore has copied page `p` once the words below `w` are
/// fully walked.
pub open spec fn spec_done_words(bm: Seq<u64>, w: int, p: int) -> bool {
    &&& 0 <= p
    &&& p / 64 < w
    &&& bitmap_bit(bm, p)
}

/// Whether the restore has copied page `p` while word `w` is being walked
/// and still holds the bits `cur`.
pub open spec fn spec_page_done(bm: Seq<u64>, w: int, cur: u64, p: int) -> bool {
    if p / 64 < w {
        spec_done_words(bm, w, p)
    } else if p / 64 == w && 0 <= p {
        &&& bitmap_bit(bm, p)
        &&& (cur >> ((p % 64) as u64)) & 1 == 0
    } else {
        false
    }
}

/// Clearing the lowest set bit: every bit of `bm & (bm - 1)` equals the
/// same bit of `bm`, except the lowest set one, which comes out clear; and
/// the word strictly shrinks.
proof fn lemma_clear_lowest(bm: u64)
    requires
        bm != 0,
    ensures
        u64_trailing_zeros(bm) < 64,
        (bm >> (u64_trailing_zeros(bm) as u64)) & 1 == 1,
        forall|j: u64|
            j < 64 ==> #[trigger] ((bm & ((bm - 1) as u64)) >> j) & 1 == (if j
                == u64_trailing_zeros(bm) as u64 {
                0u64
            } else {
                (bm >> j) & 1
            }),
        (bm & ((bm - 1) as u64)) < bm,
{
    axiom_u64_trailing_zeros(bm);
    let tz = u64_trailing_zeros(bm) as u64;
    assert(tz < 64);
    assert(bm << ((64 - tz) as u64) == 0);
    assert forall|j: u64| j < 64 implies #[trigger] ((bm & ((bm - 1) as u64)) >> j) & 1 == (
    if j == tz {
        0u64
    } else {
        (bm >> j) & 1
    }) by {
        assert((bm != 0 && tz < 64 && (bm >> tz) & 1 == 1 && bm << ((64 - tz) as u64) == 0 && j
            < 64) ==> ((bm & ((bm - 1) as u64)) >> j) & 1 == (if j == tz {
            0u64
        } else {
            (bm >> j) & 1
        })) by (bit_vector);
    }
    assert((bm & ((bm - 1) as u64)) < bm) by (bit_vector)
        requires
            bm != 0,
    ;
}

/// A word with a bit at or above position `k` is nonzero after shifting
/// `k` out, and the other way round.
proof fn lemma_shifted_nonzero(word: u64, k: u64)
    requires
        k < 64,
    ensures
        (word >> k) != 0 <==> exists|b: u64| k <= b < 64 && #[trigger] ((word >> b) & 1) == 1,
{
    if (word >> k) != 0 {
        let s = word >> k;
        axiom_u64_trailing_zeros(s);
        let t = u64_trailing_zeros(s) as u64;
        assert((s >> t) & 1 == 1);
        assert(t < 64);
        assert((k < 64 && t < 64 && ((word >> k) >> t) & 1 == 1) ==> (k + t < 64 && ((word >> ((
        k + t) as u64)) & 1) == 1)) by (bit_vector);
        let b: u64 = (k + t) as u64;
        assert(k <= b < 64 && ((word >> b) & 1) == 1);
    }
    if exists|b: u64| k <= b < 64 && #[trigger] ((word >> b) & 1) == 1 {
        let b = choose|b: u64| k <= b < 64 && #[trigger] ((word >> b) & 1) == 1;
        assert(k <= b < 64 && ((word >> b) & 1) == 1 ==> (word >> k) != 0) by (bit_vector);
    }
}

/// A nonzero word has a set bit below position 64.
proof fn lemma_nonzero_has_bit(word: u64)
    requires
        word != 0,
    ensures
        exists|b: u64| b < 64 && #[trigger] ((word >> b) & 1) == 1,
{
    assert(word >> 0u64 == word) by (bit_vector);
    lemma_shifted_nonzero(word, 0);
}

/// A page below the page count keeps its bytes inside the store.
proof fn lemma_page_byte_bounds2(p: int, frames: int)
    requires
        0 <= p < frames,
    ensures
        p * (PAGE_SIZE as int) + (PAGE_SIZE as int) <= frames * (PAGE_SIZE as int),
        0 <= p * (PAGE_SIZE as int),
{
    vstd::arithmetic::mul::lemma_mul_inequality(p + 1, frames, PAGE_SIZE as int);
    assert((p + 1) * (PAGE_SIZE as int) == p * (PAGE_SIZE as int) + (PAGE_SIZE as int))
        by (nonlinear_arith);
    vstd::arithmetic::mul::lemma_mul_nonnegative(p, PAGE_SIZE as int);
}

/// A page at or beyond the page count overruns the store.
proof fn lemma_stray_page_overruns(p: int, frames: int)
    requires
        p >= frames,
        frames >= 0,
    ensures
        p * (PAGE_SIZE as int) + (PAGE_SIZE as int) > frames * (PAGE_SIZE as int),
{
    vstd::arithmetic::mul::lemma_mul_inequality(frames, p, PAGE_SIZE as int);
}

/// Page `64 * w + b` lies beyond the page count when its word lies wholly
/// beyond it, or it sits at or above the cut in the boundary word.
proof fn lemma_word_page(w: int, b: int, total: int, total_words: int, rem: int)
    requires
        0 <= b < 64,
        0 <= w,
        total_words == total / 64,
        rem == total % 64,
        total >= 0,
        w > total_words || (w == total_words && b >= rem),
    ensures
        w * 64 + b >= total,
        (w * 64 + b) / 64 == w,
        (w * 64 + b) % 64 == b,
{
    vstd::arithmetic::div_mod::lemma_fundamental_div_mod(total, 64);
    vstd::arithmetic::div_mod::lemma_fundamental_div_mod_converse(w * 64 + b, 64, w, b);
    if w > total_words {
        vstd::arithmetic::mul::lemma_mul_inequality(total_words + 1, w, 64);
    }
}

/// A set bit of a word that passed the stray check marks a page below the
/// page count.
proof fn lemma_in_word_bounds(p: int, w: int, total: int, total_words: int, rem: int, word: u64)
    requires
        p / 64 == w,
        0 <= p,
        total_words == total / 64,
        rem == total % 64,
        total >= 0,
        w <= total_words,
        w == total_words ==> (word >> (rem as u64)) == 0,
        ((word >> ((p % 64) as u64)) & 1) == 1,
    ensures
        p < total,
{
    vstd::arithmetic::div_mod::lemma_fundamental_div_mod(p, 64);
    vstd::arithmetic::div_mod::lemma_mod_bound(p, 64);
    vstd::arithmetic::div_mod::lemma_fundamental_div_mod(total, 64);
    vstd::arithmetic::div_mod::lemma_mod_bound(total, 64);
    if w < total_words {
        vstd::arithmetic::mul::lemma_mul_inequality(w + 1, total_words, 64);
        assert((w + 1) * 64 == w * 64 + 64) by (nonlinear_arith);
        vstd::arithmetic::mul::lemma_mul_nonnegative(total_words, 64);
    } else {
        let b = (p % 64) as u64;
        if b >= rem as u64 {
            lemma_shifted_nonzero(word, rem as u64);
            assert((word >> (rem as u64)) != 0);
            assert(false);
        }
    }
}

/// Starting a word's walk with the whole word still pending marks exactly
/// the pages of the earlier words as done.
proof fn lemma_done_start(bm: Seq<u64>, w: int, p: int)
    requires
        0 <= w < bm.len(),
        0 <= p,
    ensures
        spec_page_done(bm, w, bm[w], p) == spec_done_words(bm, w, p),
{
    vstd::arithmetic::div_mod::lemma_mod_bound(p, 64);
}

/// Clearing bit `i` of the walk state marks exactly page `64 * w + i` as
/// newly done.
proof fn lemma_done_after_clear(bm: Seq<u64>, w: int, prev: u64, cur: u64, i: u64, p: int)
    requires
        0 <= w < bm.len(),
        i < 64,
        forall|j: u64|
            j < 64 ==> #[trigger] ((cur >> j) & 1) == (if j == i {
                0u64
            } else {
                (prev >> j) & 1
            }),
        ((prev >> i) & 1) == 1,
        0 <= p,
    ensures
        spec_page_done(bm, w, cur, p) == (spec_page_done(bm, w, prev, p) || (p == w * 64
            + i && bitmap_bit(bm, p))),
{
    vstd::arithmetic::div_mod::lemma_fundamental_div_mod(p, 64);
    vstd::arithmetic::div_mod::lemma_mod_bound(p, 64);
    vstd::arithmetic::div_mod::lemma_fundamental_div_mod_converse(w * 64 + i, 64, w, i as int);
    if p / 64 == w {
        let b = (p % 64) as u64;
        assert(((cur >> b) & 1) == (if b == i {
            0u64
        } else {
            (prev >> b) & 1
        }));
    }
}

/// Finishing a word's walk marks exactly the pages of the words up to and
/// including it as done.
proof fn lemma_done_word_finished(bm: Seq<u64>, w: int, p: int)
    requires
        0 <= p,
    ensures
        spec_page_done(bm, w, 0, p) == spec_done_words(bm, w + 1, p),
{
    vstd::arithmetic::div_mod::lemma_mod_bound(p, 64);
    let j = (p % 64) as u64;
    assert((0u64 >> j) & 1 == 0) by (bit_vector);
}

/// Copies every page the dirty bitmap marks from `reference` into `mem`,
/// walking each bitmap word's set bits with the clear-lowest-bit step.
/// Fails without changing anything if the bitmap marks a page beyond the
/// end of memory; the error carries the index of the first bitmap word
/// that does so. Mappings, permissions and software dirty flags are
/// untouched: only physical page contents move.
pub fn restore_dirty_pages(
    mem: &mut VirtualMemory,
    reference: &VirtualMemory,
    bitmap: &Vec<u64>,
) -> (r: Result<(), MemoryError>)
    requires
        old(mem).wf(),
        reference.wf(),
        old(mem).phys().len() == reference.phys().len(),
    ensures
        final(mem).wf(),
        final(mem).phys().len() == old(mem).phys().len(),
        forall|b: u64| #[trigger] final(mem).is_mapped(b) <==> old(mem).is_mapped(b),
        forall|b: u64|
            #[trigger] old(mem).is_mapped(b) ==> final(mem).perms_of(b) == old(mem).perms_of(b)
                && final(mem).frame_of(b) == old(mem).frame_of(b) && final(mem).dirty_of(b)
                == old(mem).dirty_of(b),
        final(mem).mappings_view() == old(mem).mappings_view(),
        final(mem).next_free_frame() == old(mem).next_free_frame(),
        match r {
            Ok(()) => {
                &&& forall|p: int|
                    #[trigger] bitmap_bit(bitmap@, p) ==> p * (PAGE_SIZE as int) + (
                    PAGE_SIZE as int) <= old(mem).phys().len()
                &&& forall|q: int|
                    0 <= q < old(mem).phys().len() ==> #[trigger] final(mem).phys()[q] == (
                    if bitmap_bit(bitmap@, q / (PAGE_SIZE as int)) {
                        reference.phys()[q]
                    } else {
                        old(mem).phys()[q]
                    })
            },
            Err(MemoryError::OutOfRange(a)) => {
                &&& exists|p: int|
                    #[trigger] bitmap_bit(bitmap@, p) && p * (PAGE_SIZE as int) + (
                    PAGE_SIZE as int) > old(mem).phys().len()
                &&& *final(mem) == *old(mem)
            },
            _ => false,
        },
{
    proof {
        old(mem).lemma_wf_size();
    }
    let host_len: usize = mem.host_memory_size();
    let total_pages: usize = host_len / PAGE_SIZE;
    proof {
        assert(total_pages as int == old(mem).frames());
    }
    let total_words: usize = total_pages / 64;
    let rem: usize = total_pages % 64;
    // First pass: refuse a bitmap that marks a page beyond the end.
    let n = bitmap.len();
    let mut w: usize = 0;
    while w < n
        invariant
            old(mem).wf(),
            mem == old(mem),
            n == bitmap@.len(),
            w <= n,
            total_pages as int == old(mem).frames(),
            total_words as int == total_pages as int / 64,
            rem as int == total_pages as int % 64,
            old(mem).phys().len() == old(mem).frames() * (PAGE_SIZE as int),
            forall|p: int|
                #[trigger] bitmap_bit(bitmap@, p) && p / 64 < w ==> p < total_pages,
        decreases n - w,
    {
        let word = bitmap[w];
        let stray = if w > total_words {
            word != 0
        } else if w == total_words {
            (word >> (rem as u64)) != 0
        } else {
            false
        };
        if stray {
            proof {
                let b = if w > total_words {
                    lemma_nonzero_has_bit(word);
                    choose|b: u64| b < 64 && #[trigger] ((word >> b) & 1) == 1
                } else {
                    vstd::arithmetic::div_mod::lemma_mod_bound(total_pages as int, 64);
                    lemma_shifted_nonzero(word, rem as u64);
                    choose|b: u64| rem as u64 <= b < 64 && #[trigger] ((word >> b) & 1) == 1
                };
                lemma_word_page(
                    w as int,
                    b as int,
                    total_pages as int,
                    total_words as int,
                    rem as int,
                );
                let p = w as int * 64 + b;
                assert(bitmap_bit(bitmap@, p));
                lemma_stray_page_overruns(p, old(mem).frames());
            }
            return Err(MemoryError::OutOfRange(w as u64));
        }
        proof {
            assert forall|p: int| #[trigger] bitmap_bit(bitmap@, p) && p / 64 < w + 1
                implies p < total_pages by {
                if p / 64 == w {
                    let b = (p % 64) as u64;
                    assert(((word >> b) & 1) == 1);
                    assert(((word >> b) & 1) == 1 ==> word != 0) by (bit_vector);
                    assert(w <= total_words);
                    lemma_in_word_bounds(
                        p,
                        w as int,
                        total_pages as int,
                        total_words as int,
                        rem as int,
                        word,
                    );
                }
            }
        }
        w += 1;
    }
    proof {
        assert forall|p: int| #[trigger] bitmap_bit(bitmap@, p) implies p < total_pages by {
            vstd::arithmetic::div_mod::lemma_div_pos_is_pos(p, 64);
        }
    }
    // Second pass: copy every marked page.
    let ghost orig = *mem;
    let mut w: usize = 0;
    while w < n
        invariant
            orig.wf(),
            reference.wf(),
            mem.wf(),
            orig.phys().len() == reference.phys().len(),
            n == bitmap@.len(),
            w <= n,
            total_pages as int == orig.frames(),
            orig.phys().len() == orig.frames() * (PAGE_SIZE as int),
            orig.phys().len() == host_len as int,
            forall|p: int| #[trigger] bitmap_bit(bitmap@, p) ==> p < total_pages,
            mem.phys().len() == orig.phys().len(),
            forall|b: u64| #[trigger] mem.is_mapped(b) <==> orig.is_mapped(b),
            forall|b: u64|
                #[trigger] orig.is_mapped(b) ==> mem.perms_of(b) == orig.perms_of(b)
                    && mem.frame_of(b) == orig.frame_of(b) && mem.dirty_of(b) == orig.dirty_of(
                    b,
                ),
            mem.mappings_view() == orig.mappings_view(),
            mem.next_free_frame() == orig.next_free_frame(),
            forall|q: int|
                0 <= q < orig.phys().len() ==> #[trigger] mem.phys()[q] == (if spec_done_words(
                    bitmap@,
                    w as int,
                    q / (PAGE_SIZE as int),
                ) {
                    reference.phys()[q]
                } else {
                    orig.phys()[q]
                }),
        decreases n - w,
    {
        let mut bm: u64 = bitmap[w];
        proof {
            assert forall|q: int| 0 <= q < orig.phys().len() implies #[trigger] mem.phys()[q]
                == (if spec_page_done(bitmap@, w as int, bm, q / (PAGE_SIZE as int)) {
                reference.phys()[q]
            } else {
                orig.phys()[q]
            }) by {
                vstd::arithmetic::div_mod::lemma_div_pos_is_pos(q, PAGE_SIZE as int);
                lemma_done_start(bitmap@, w as int, q / (PAGE_SIZE as int));
            }
        }
        while bm != 0
            invariant
                orig.wf(),
                reference.wf(),
                mem.wf(),
                orig.phys().len() == reference.phys().len(),
                n == bitmap@.len(),
                w < n,
                total_pages as int == orig.frames(),
                orig.phys().len() == orig.frames() * (PAGE_SIZE as int),
                orig.phys().len() == host_len as int,
                forall|p: int| #[trigger] bitmap_bit(bitmap@, p) ==> p < total_pages,
                forall|j: u64|
                    j < 64 && #[trigger] ((bm >> j) & 1) == 1 ==> ((bitmap@[w as int] >> j) & 1)
                        == 1,
                mem.phys().len() == orig.phys().len(),
                forall|b: u64| #[trigger] mem.is_mapped(b) <==> orig.is_mapped(b),
                forall|b: u64|
                    #[trigger] orig.is_mapped(b) ==> mem.perms_of(b) == orig.perms_of(b)
                        && mem.frame_of(b) == orig.frame_of(b) && mem.dirty_of(b)
                        == orig.dirty_of(b),
                mem.mappings_view() == orig.mappings_view(),
                mem.next_free_frame() == orig.next_free_frame(),
                forall|q: int|
                    0 <= q < orig.phys().len() ==> #[trigger] mem.phys()[q] == (
                    if spec_page_done(bitmap@, w as int, bm, q / (PAGE_SIZE as int)) {
                        reference.phys()[q]
                    } else {
                        orig.phys()[q]
                    }),
            decreases bm,
        {
            proof {
                lemma_clear_lowest(bm);
            }
            let i: usize = bm.trailing_zeros() as usize;
            proof {
                assert(((bitmap@[w as int] >> (i as u64)) & 1) == 1);
                vstd::arithmetic::div_mod::lemma_fundamental_div_mod_converse(
                    w as int * 64 + i,
                    64,
                    w as int,
                    i as int,
                );
                assert(bitmap_bit(bitmap@, w as int * 64 + i));
                assert(w as int * 64 + i < total_pages);
                lemma_page_byte_bounds2(w as int * 64 + i as int, total_pages as int);
                assert((w as int * 64 + i) * (PAGE_SIZE as int) + (PAGE_SIZE as int)
                    <= host_len as int);
            }
            let pa: usize = (w * 64 + i) * PAGE_SIZE;
            let page = match reference.read_phys(pa, PAGE_SIZE) {
                Ok(v) => v,
                Err(_) => {
                    proof {
                        assert(false);
                    }
                    return Err(MemoryError::OutOfRange(w as u64));
                },
            };
            let ghost before = *mem;
            match mem.write_phys(pa, page.as_slice()) {
                Ok(()) => (),
                Err(_) => {
                    proof {
                        assert(false);
                    }
                    return Err(MemoryError::OutOfRange(w as u64));
                },
            }
            let ghost bm_prev = bm;
            bm = bm & (bm - 1);
            proof {
                assert forall|b: u64| #[trigger] mem.is_mapped(b) implies orig.is_mapped(b) by {
                    assert(before.is_mapped(b));
                }
                assert forall|b: u64| #[trigger] orig.is_mapped(b) implies mem.is_mapped(b)
                    && mem.perms_of(b) == orig.perms_of(b) && mem.frame_of(b) == orig.frame_of(
                    b,
                ) && mem.dirty_of(b) == orig.dirty_of(b) by {
                    assert(before.is_mapped(b));
                }
                let p0 = w as int * 64 + i;
                assert forall|q: int| 0 <= q < orig.phys().len() implies #[trigger] mem.phys()[q]
                    == (if spec_page_done(bitmap@, w as int, bm, q / (PAGE_SIZE as int)) {
                    reference.phys()[q]
                } else {
                    orig.phys()[q]
                }) by {
                    let p = q / (PAGE_SIZE as int);
                    vstd::arithmetic::div_mod::lemma_fundamental_div_mod(q, PAGE_SIZE as int);
                    vstd::arithmetic::div_mod::lemma_mod_bound(q, PAGE_SIZE as int);
                    vstd::arithmetic::div_mod::lemma_div_pos_is_pos(q, PAGE_SIZE as int);
                    lemma_done_after_clear(bitmap@, w as int, bm_prev, bm, i as u64, p);
                    if p == p0 {
                        // This byte sits on the page just copied.
                        assert(pa <= q < pa + PAGE_SIZE) by (nonlinear_arith)
                            requires
                                q == p * (PAGE_SIZE as int) + q % (PAGE_SIZE as int),
                                0 <= q % (PAGE_SIZE as int) < (PAGE_SIZE as int),
                                p == p0,
                                pa == p0 * (PAGE_SIZE as int),
                        ;
                        assert(mem.phys()[q] == page@[q - pa]);
                        assert(page@[q - pa] == reference.phys()[q]);
                    } else {
                        assert(!(pa <= q < pa + PAGE_SIZE)) by (nonlinear_arith)
                            requires
                                q == p * (PAGE_SIZE as int) + q % (PAGE_SIZE as int),
                                0 <= q % (PAGE_SIZE as int) < (PAGE_SIZE as int),
                                p != p0,
                                pa == p0 * (PAGE_SIZE as int),
                        ;
                        assert(mem.phys()[q] == before.phys()[q]);
                    }
                }
            }
        }
        proof {
            assert forall|q: int| 0 <= q < orig.phys().len() implies #[trigger] mem.phys()[q]
                == (if spec_done_words(bitmap@, w as int + 1, q / (PAGE_SIZE as int)) {
                reference.phys()[q]
            } else {
                orig.phys()[q]
            }) by {
                vstd::arithmetic::div_mod::lemma_div_pos_is_pos(q, PAGE_SIZE as int);
                lemma_done_word_finished(bitmap@, w as int, q / (PAGE_SIZE as int));
            }
        }
        w += 1;
    }
    proof {
        assert forall|q: int| 0 <= q < orig.phys().len() implies #[trigger] mem.phys()[q] == (
        if bitmap_bit(bitmap@, q / (PAGE_SIZE as int)) {
            reference.phys()[q]
        } else {
            orig.phys()[q]
        }) by {
            let p = q / (PAGE_SIZE as int);
            vstd::arithmetic::div_mod::lemma_div_pos_is_pos(q, PAGE_SIZE as int);
            if bitmap_bit(bitmap@, p) {
                assert(p / 64 < n);
                assert(spec_done_words(bitmap@, n as int, p));
            }
        }
        assert forall|p: int| #[trigger] bitmap_bit(bitmap@, p) implies p * (PAGE_SIZE as int)
            + (PAGE_SIZE as int) <= orig.phys().len() by {
            lemma_page_byte_bounds2(p, orig.frames());
        }
    }
    Ok(())
}

/// Reset correctness: a restore makes the memory agree with the reference
/// everywhere, provided it already agreed on every page the dirty log did
/// not mark — which holds when all divergence since the last reset came
/// from logged guest writes.
pub proof fn lemma_restore_reaches_reference(
    before: Seq<u8>,
    reference: Seq<u8>,
    after: Seq<u8>,
    bm: Seq<u64>,
)
    requires
        before.len() == reference.len(),
        after.len() == before.len(),
        forall|q: int|
            0 <= q < before.len() ==> #[trigger] after[q] == (if bitmap_bit(
                bm,
                q / (PAGE_SIZE as int),
            ) {
                reference[q]
            } else {
                before[q]
            }),
        forall|q: int|
            0 <= q < before.len() && !bitmap_bit(bm, q / (PAGE_SIZE as int))
                ==> #[trigger] before[q] == reference[q],
    ensures
        after == reference,
{
    assert(after =~= reference);
}

/// Reset idempotence: applying the same restore twice from the same
/// reference with the same bitmap leaves exactly the state of the first
/// application — the copy changes nothing the second time.
pub proof fn lemma_restore_idempotent(
    before: Seq<u8>,
    reference: Seq<u8>,
    once: Seq<u8>,
    twice: Seq<u8>,
    bm: Seq<u64>,
)
    requires
        before.len() == reference.len(),
        once.len() == before.len(),
        twice.len() == before.len(),
        forall|q: int|
            0 <= q < before.len() ==> #[trigger] once[q] == (if bitmap_bit(
                bm,
                q / (PAGE_SIZE as int),
            ) {
                reference[q]
            } else {
                before[q]
            }),
        forall|q: int|
            0 <= q < before.len() ==> #[trigger] twice[q] == (if bitmap_bit(
                bm,
                q / (PAGE_SIZE as int),
            ) {
                reference[q]
            } else {
                once[q]
            }),
    ensures
        twice == once,
{
    assert(twice =~= once);
}

} // verus!
