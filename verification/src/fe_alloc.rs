//! The kernel heap: a bitmap allocator over fixed-size blocks.
//!
//! The heap region starts with the free list, one bit per block of the
//! usable heap behind it: bit `i` is set while block `i` is allocated. An
//! allocation looks for a run of free blocks that starts at a suitably
//! aligned address, testing and marking up to eight blocks at a time.
//!
//! Addresses are plain numbers here; nothing in this module touches memory
//! other than the free list itself.

use vstd::prelude::*;

verus! {

/// The size of a block in bytes.
pub const BLOCK_SIZE: usize = 0x10;

/// Size and alignment of an allocation, as passed across the trap boundary.
#[derive(Clone, Copy, PartialEq, Eq, Structural, Debug)]
pub struct LayoutFFI {
    pub size: usize,
    pub align: usize,
}

/// Whether bit `j` of `byte` is set.
pub open spec fn bit_set(byte: u8, j: int) -> bool {
    0 <= j < 8 && (byte >> (j as u8)) & 1u8 == 1u8
}

/// How many blocks one step covers that starts at bit `bit` of a byte of the
/// free list with `blocks_remaining` blocks to go: the rest of the byte, or
/// less if fewer blocks remain.
pub open spec fn step_blocks(bit: int, blocks_remaining: int) -> int {
    if blocks_remaining >= 8 - bit {
        8 - bit
    } else {
        blocks_remaining
    }
}

/// The byte with the lowest `n` bits set, for `n` from one to eight.
fn low_bits(n: usize) -> (mask: u8)
    requires
        1 <= n <= 8,
    ensures
        mask == 0xFFu8 >> ((8 - n) as u8),
{
    let mask: u8 = if n == 1 {
        0x01
    } else if n == 2 {
        0x03
    } else if n == 3 {
        0x07
    } else if n == 4 {
        0x0F
    } else if n == 5 {
        0x1F
    } else if n == 6 {
        0x3F
    } else if n == 7 {
        0x7F
    } else {
        0xFF
    };
    let shift: u8 = (8 - n) as u8;
    assert(mask == 0xFFu8 >> shift) by (bit_vector)
        requires
            shift < 8,
            mask == if shift == 7 {
                0x01u8
            } else if shift == 6 {
                0x03u8
            } else if shift == 5 {
                0x07u8
            } else if shift == 4 {
                0x0Fu8
            } else if shift == 3 {
                0x1Fu8
            } else if shift == 2 {
                0x3Fu8
            } else if shift == 1 {
                0x7Fu8
            } else {
                0xFFu8
            },
    ;
    mask
}

/// The bits of a mask of `n` bits that starts at bit `bit`.
proof fn lemma_mask_bits(bit: u8, n: u8, j: u8)
    by (bit_vector)
    requires
        bit < 8,
        1 <= n,
        n <= 8 - bit,
        j < 8,
    ensures
        ((((0xFFu8 >> ((8 - n) as u8)) << bit) >> j) & 1u8 == 1u8) == (bit <= j && j < bit + n),
{
}

/// Returns the bit mask for the blocks of one step: those from bit `bit` of
/// a byte of the free list up to the end of that byte, or the next
/// `blocks_remaining` if those are fewer. Moves `cur_block` on by the number
/// of blocks that the mask covers.
pub fn get_bit_mask(bit: usize, blocks_remaining: usize, cur_block: &mut usize) -> (mask: u8)
    requires
        bit < 8,
        blocks_remaining >= 1,
        *old(cur_block) + 8 <= usize::MAX,
    ensures
        *final(cur_block) == *old(cur_block) + step_blocks(bit as int, blocks_remaining as int),
        forall|j: int|
            0 <= j < 8 ==> (#[trigger] bit_set(mask, j) <==> bit <= j < bit + step_blocks(
                bit as int,
                blocks_remaining as int,
            )),
{
    // If more blocks remain than this byte of the free list has bits left, take the
    // rest of the byte; otherwise take just the bits that are needed.
    let covered: usize = if blocks_remaining >= 8 - bit {
        8 - bit
    } else {
        blocks_remaining
    };
    *cur_block += covered;
    let low: u8 = low_bits(covered);
    let mask: u8 = low << bit;
    proof {
        assert forall|j: int| 0 <= j < 8 implies (#[trigger] bit_set(mask, j) <==> bit <= j < bit
            + covered) by {
            lemma_mask_bits(bit as u8, covered as u8, j as u8);
        }
    }
    mask
}

/// The largest multiple of the block size that is not above `x`.
pub open spec fn align_down(x: int) -> int {
    x - x % 16
}

/// How many blocks hold `size` bytes.
pub open spec fn blocks_for(size: int) -> int {
    if size % 16 == 0 {
        size / 16
    } else {
        size / 16 + 1
    }
}

/// How many of the blocks are free.
pub open spec fn free_count(blocks: Seq<bool>) -> nat
    decreases blocks.len(),
{
    if blocks.len() == 0 {
        0
    } else {
        free_count(blocks.drop_last()) + if blocks.last() {
            0nat
        } else {
            1nat
        }
    }
}

/// The blocks with those from `from` up to `to` set to `value`.
pub open spec fn with_range(blocks: Seq<bool>, from: int, to: int, value: bool) -> Seq<bool> {
    Seq::new(
        blocks.len(),
        |i: int|
            if from <= i < to {
                value
            } else {
                blocks[i]
            },
    )
}

/// Whether all blocks from `from` up to `to` have the state `value`.
pub open spec fn range_is(blocks: Seq<bool>, from: int, to: int, value: bool) -> bool {
    forall|i: int| from <= i < to ==> #[trigger] blocks[i] == value
}

/// Changing the state of `to - from` blocks that all had the other state
/// changes the number of free blocks by as many.
pub proof fn lemma_free_count_range(blocks: Seq<bool>, from: int, to: int, value: bool)
    requires
        0 <= from <= to <= blocks.len(),
        range_is(blocks, from, to, !value),
    ensures
        free_count(with_range(blocks, from, to, value)) == if value {
            free_count(blocks) - (to - from)
        } else {
            free_count(blocks) + (to - from)
        },
        free_count(blocks) <= blocks.len(),
    decreases blocks.len(),
{
    if blocks.len() > 0 {
        let n = blocks.len() - 1;
        let changed = with_range(blocks, from, to, value);
        if to <= n {
            assert(changed.drop_last() =~= with_range(blocks.drop_last(), from, to, value));
            assert(range_is(blocks.drop_last(), from, to, !value)) by {
                assert forall|i: int| from <= i < to implies #[trigger] blocks.drop_last()[i]
                    == !value by {
                    assert(blocks[i] == !value);
                }
            }
            lemma_free_count_range(blocks.drop_last(), from, to, value);
        } else {
            assert(changed.drop_last() =~= with_range(blocks.drop_last(), from, n, value));
            assert(range_is(blocks.drop_last(), from, n, !value)) by {
                assert forall|i: int| from <= i < n implies #[trigger] blocks.drop_last()[i]
                    == !value by {
                    assert(blocks[i] == !value);
                }
            }
            if from <= n {
                lemma_free_count_range(blocks.drop_last(), from, n, value);
                assert(blocks[n] == !value);
            } else {
                assert(with_range(blocks.drop_last(), from, n, value) =~= blocks.drop_last());
                lemma_free_count_range(blocks.drop_last(), n, n, value);
                assert(with_range(blocks.drop_last(), n, n, value) =~= blocks.drop_last());
                assert(changed =~= blocks);
            }
        }
    } else {
        assert(with_range(blocks, from, to, value) =~= blocks);
    }
}

/// What a heap is, for contracts.
pub struct HeapView {
    /// Where the free list starts.
    pub free_list: usize,
    /// Where the usable heap starts.
    pub base: usize,
    /// For every block of the usable heap, whether it is allocated.
    pub blocks: Seq<bool>,
    /// How many bytes are free.
    pub remaining: usize,
}

impl HeapView {
    /// The address of block `i`.
    pub open spec fn address(self, i: int) -> int {
        self.base + i * 16
    }

    /// The heap lies within the address space, and the count of free bytes
    /// is that of the free blocks.
    pub open spec fn wf(self) -> bool {
        &&& self.base + self.blocks.len() * 16 <= usize::MAX
        &&& self.remaining == free_count(self.blocks) * 16
    }
}

/// The kernel heap.
pub struct Heap {
    free_list: Vec<u8>,
    free_list_addr: usize,
    num_blocks: usize,
    heap: usize,
    heap_remaining: usize,
}

impl View for Heap {
    type V = HeapView;

    closed spec fn view(&self) -> HeapView {
        HeapView {
            free_list: self.free_list_addr,
            base: self.heap,
            blocks: Seq::new(
                self.num_blocks as nat,
                |i: int| bit_set(self.free_list@[i / 8], i % 8),
            ),
            remaining: self.heap_remaining,
        }
    }
}

impl Heap {
    /// Whether the free list has a bit for every block.
    pub closed spec fn covered(&self) -> bool {
        self.num_blocks <= self.free_list@.len() * 8
    }

    /// Whether the heap is consistent.
    pub open spec fn wf(&self) -> bool {
        self.covered() && self@.wf()
    }

    /// How many bytes of the heap are free. This does not consider
    /// fragmentation, so it does not tell whether an allocation will succeed.
    pub fn get_heap_remaining(&self) -> (bytes: usize)
        ensures
            bytes == self@.remaining,
    {
        self.heap_remaining
    }
}

/// Rounding down to a multiple of sixteen by masking.
proof fn lemma_mask_align(x: usize)
    by (bit_vector)
    ensures
        x & !0xFusize == x - x % 16,
        (x & !0xFusize) % 16 == 0,
        x & !0xFusize <= x,
{
}

/// A free list that takes the 129th part of the region has a bit for every
/// block of the rest.
proof fn lemma_free_list_covers(total: int, usable: int)
    by (nonlinear_arith)
    requires
        0 <= usable <= (total * 128) / 129,
        0 <= total,
    ensures
        usable / 16 <= (total - usable) * 8,
        usable <= total,
{
}

/// Lays out the heap in the region from `sheap` up to `eheap`: first the
/// free list, then the usable heap, both aligned to the block size, sized so
/// that the free list has one bit for every block of the usable heap. All
/// blocks are free.
pub fn init_heap(sheap: usize, eheap: usize) -> (heap: Heap)
    requires
        sheap + 15 <= eheap,
        (eheap - sheap) * 128 <= usize::MAX,
    ensures
        heap.wf(),
        heap@.free_list == align_down(sheap + 15),
        heap@.blocks.len() == align_down(align_down(eheap - heap@.free_list) * 128 / 129) / 16,
        heap@.base == heap@.free_list + align_down(eheap - heap@.free_list) - heap@.blocks.len()
            * 16,
        heap@.remaining == heap@.blocks.len() * 16,
        range_is(heap@.blocks, 0, heap@.blocks.len() as int, false),
        heap@.base + heap@.blocks.len() * 16 <= eheap,
{
    // The free list and the size of the region are aligned to the block size.
    let free_list_addr: usize = (sheap + (BLOCK_SIZE - 1)) & !(BLOCK_SIZE - 1);
    proof {
        lemma_mask_align((sheap + 15) as usize);
    }
    let span: usize = eheap - free_list_addr;
    let total_heap_size: usize = span & !(BLOCK_SIZE - 1);
    proof {
        lemma_mask_align(span);
        assert(total_heap_size * 128 <= (eheap - sheap) * 128) by (nonlinear_arith)
            requires
                total_heap_size <= eheap - sheap,
        ;
    }
    // With x the size of the free list, y the size of the usable heap and b the block
    // size, x = y / (8b) and x + y is the total, so y is the total times 8b / (8b + 1).
    let scaled: usize = total_heap_size * (8 * BLOCK_SIZE) / ((8 * BLOCK_SIZE) + 1);
    let usable_heap_size: usize = scaled & !(BLOCK_SIZE - 1);
    proof {
        lemma_mask_align(scaled);
        lemma_free_list_covers(total_heap_size as int, usable_heap_size as int);
    }
    let num_blocks: usize = usable_heap_size / BLOCK_SIZE;
    let free_list_size: usize = total_heap_size - usable_heap_size;
    let heap_addr: usize = free_list_addr + free_list_size;
    // Set all of the blocks to free.
    let free_list: Vec<u8> = vec![0u8; free_list_size];
    let heap = Heap {
        free_list,
        free_list_addr,
        num_blocks,
        heap: heap_addr,
        heap_remaining: usable_heap_size,
    };
    proof {
        assert(0u8 >> 0u8 & 1u8 == 0u8 && 0u8 >> 1u8 & 1u8 == 0u8 && 0u8 >> 2u8 & 1u8 == 0u8 && 0u8
            >> 3u8 & 1u8 == 0u8 && 0u8 >> 4u8 & 1u8 == 0u8 && 0u8 >> 5u8 & 1u8 == 0u8 && 0u8 >> 6u8
            & 1u8 == 0u8 && 0u8 >> 7u8 & 1u8 == 0u8) by (bit_vector);
        assert forall|i: int| 0 <= i < num_blocks implies #[trigger] heap@.blocks[i] == false by {
            assert(heap.free_list@[i / 8] == 0u8);
        }
        let all_taken = with_range(heap@.blocks, 0, num_blocks as int, true);
        assert(range_is(all_taken, 0, num_blocks as int, true));
        lemma_free_count_range(all_taken, 0, num_blocks as int, false);
        assert(with_range(all_taken, 0, num_blocks as int, false) =~= heap@.blocks);
        lemma_free_count_range(heap@.blocks, 0, num_blocks as int, true);
        assert(usable_heap_size == num_blocks * 16);
    }
    heap
}

/// The bits of a byte after the bits of a mask have been set in it.
proof fn lemma_set_bits(byte: u8, mask: u8, j: u8)
    by (bit_vector)
    requires
        j < 8,
    ensures
        (((byte | mask) >> j) & 1u8 == 1u8) == ((byte >> j) & 1u8 == 1u8 || (mask >> j) & 1u8 == 1u8),
{
}

/// The bits of a byte after the bits of a mask have been cleared in it.
proof fn lemma_clear_bits(byte: u8, mask: u8, j: u8)
    by (bit_vector)
    requires
        j < 8,
    ensures
        (((byte & !mask) >> j) & 1u8 == 1u8) == ((byte >> j) & 1u8 == 1u8 && !((mask >> j) & 1u8
            == 1u8)),
{
}

/// A byte and a mask have a set bit in common exactly if their conjunction
/// is not zero.
proof fn lemma_common_bit(byte: u8, mask: u8)
    by (bit_vector)
    ensures
        (byte & mask != 0u8) == (((byte >> 0u8) & 1u8 == 1u8 && (mask >> 0u8) & 1u8 == 1u8) || ((byte
            >> 1u8) & 1u8 == 1u8 && (mask >> 1u8) & 1u8 == 1u8) || ((byte >> 2u8) & 1u8 == 1u8 && (
        mask >> 2u8) & 1u8 == 1u8) || ((byte >> 3u8) & 1u8 == 1u8 && (mask >> 3u8) & 1u8 == 1u8)
            || ((byte >> 4u8) & 1u8 == 1u8 && (mask >> 4u8) & 1u8 == 1u8) || ((byte >> 5u8) & 1u8
            == 1u8 && (mask >> 5u8) & 1u8 == 1u8) || ((byte >> 6u8) & 1u8 == 1u8 && (mask >> 6u8)
            & 1u8 == 1u8) || ((byte >> 7u8) & 1u8 == 1u8 && (mask >> 7u8) & 1u8 == 1u8)),
{
}

impl Heap {
    /// Marks the `count` blocks from `start` on as allocated or as free in
    /// the free list, up to eight blocks at a time.
    fn mark_range(&mut self, start: usize, count: usize, allocated: bool)
        requires
            old(self).covered(),
            start + count <= old(self)@.blocks.len(),
            old(self)@.blocks.len() + 8 <= usize::MAX,
        ensures
            final(self).covered(),
            final(self)@ == (HeapView {
                blocks: with_range(old(self)@.blocks, start as int, start + count, allocated),
                ..old(self)@
            }),
    {
        let ghost before = self@;
        let mut cur_block: usize = start;
        assert(self.num_blocks == before.blocks.len());
        assert(self@.blocks =~= with_range(before.blocks, start as int, start as int, allocated));
        while cur_block < start + count
            invariant
                start <= cur_block <= start + count,
                start + count <= before.blocks.len(),
                before.blocks.len() + 8 <= usize::MAX,
                self.covered(),
                self.num_blocks == before.blocks.len(),
                self@ == (HeapView {
                    blocks: with_range(before.blocks, start as int, cur_block as int, allocated),
                    ..before
                }),
            decreases start + count - cur_block,
        {
            let blocks_remaining: usize = count - (cur_block - start);
            let idx: usize = cur_block / 8;
            let bit: usize = cur_block % 8;
            let ghost from = cur_block;
            let ghost bytes = self.free_list@;
            let ghost prev = self@.blocks;
            assert forall|i: int| 0 <= i < before.blocks.len() implies #[trigger] prev[i] == bit_set(
                bytes[i / 8],
                i % 8,
            ) by {}
            let bit_mask: u8 = get_bit_mask(bit, blocks_remaining, &mut cur_block);
            assert(idx < self.free_list@.len());
            let byte: u8 = self.free_list[idx];
            let marked: u8 = if allocated {
                byte | bit_mask
            } else {
                byte & !bit_mask
            };
            self.free_list[idx] = marked;
            proof {
                assert forall|i: int| 0 <= i < before.blocks.len() implies #[trigger] self@.blocks[i]
                    == with_range(before.blocks, start as int, cur_block as int, allocated)[i] by {
                    let j = i % 8;
                    assert(prev[i] == bit_set(bytes[i / 8], j));
                    assert(self@.blocks[i] == bit_set(self.free_list@[i / 8], j));
                    if i / 8 == idx {
                        assert(bit_set(bit_mask, j) <==> bit <= j < bit + (cur_block - from));
                        assert(from <= i < cur_block <==> bit <= j < bit + (cur_block - from));
                        if allocated {
                            lemma_set_bits(byte, bit_mask, j as u8);
                        } else {
                            lemma_clear_bits(byte, bit_mask, j as u8);
                        }
                        assert(bytes[i / 8] == byte);
                        assert(self.free_list@[i / 8] == marked);
                    } else {
                        assert(self.free_list@[i / 8] == bytes[i / 8]);
                        assert(!(from <= i < cur_block));
                    }
                }
                assert(self@.blocks =~= with_range(
                    before.blocks,
                    start as int,
                    cur_block as int,
                    allocated,
                ));
            }
        }
    }

    /// Gives the blocks of an allocation back.
    ///
    /// `ptr` and `layout` have to be those of an earlier allocation that has
    /// not been given back yet: `ptr` lies in the usable heap and the blocks
    /// that `layout.size` bytes take from there on are all allocated.
    pub fn dealloc(&mut self, ptr: usize, layout: LayoutFFI)
        requires
            old(self).wf(),
            ptr >= old(self)@.base,
            (ptr - old(self)@.base) / 16 + blocks_for(layout.size as int) <= old(
                self,
            )@.blocks.len(),
            range_is(
                old(self)@.blocks,
                (ptr - old(self)@.base) / 16,
                (ptr - old(self)@.base) / 16 + blocks_for(layout.size as int),
                true,
            ),
        ensures
            final(self).wf(),
            final(self)@ == (HeapView {
                blocks: with_range(
                    old(self)@.blocks,
                    (ptr - old(self)@.base) / 16,
                    (ptr - old(self)@.base) / 16 + blocks_for(layout.size as int),
                    false,
                ),
                remaining: (old(self)@.remaining + blocks_for(layout.size as int) * 16) as usize,
                ..old(self)@
            }),
    {
        // Determine the block that the pointer belongs to.
        let start_block: usize = (ptr - self.heap) / BLOCK_SIZE;
        let num_blocks: usize = if layout.size % BLOCK_SIZE == 0 {
            layout.size / BLOCK_SIZE
        } else {
            (layout.size / BLOCK_SIZE) + 1
        };
        proof {
            let freed = with_range(
                self@.blocks,
                start_block as int,
                start_block + num_blocks,
                false,
            );
            lemma_free_count_range(
                self@.blocks,
                start_block as int,
                start_block + num_blocks,
                false,
            );
            lemma_free_count_range(freed, 0, 0, true);
        }
        self.mark_range(start_block, num_blocks, false);
        self.heap_remaining += num_blocks * BLOCK_SIZE;
    }
}

/// Whether `addr` meets the alignment `align`, a power of two.
pub open spec fn aligned(addr: usize, align: usize) -> bool {
    addr & ((align - 1) as usize) == 0
}

/// The test of a run of `needed` blocks that starts at block `start`, from
/// block `cur` on. The run is tested in steps that each cover the blocks up
/// to the end of one byte of the free list. The result says whether all
/// steps found their blocks free, and where the test stopped: behind the
/// first step that found a block allocated, or at the end of the run.
pub open spec fn probe(blocks: Seq<bool>, start: int, cur: int, needed: int) -> (bool, int)
    decreases start + needed - cur,
{
    if cur < start || cur >= start + needed {
        (true, cur)
    } else {
        let next = cur + step_blocks(cur % 8, needed - (cur - start));
        if range_is(blocks, cur, next, false) {
            probe(blocks, start, next, needed)
        } else {
            (false, next)
        }
    }
}

/// The search for a run of `needed` free blocks from block `cur` on. A
/// block whose address does not meet the alignment is passed over. A run
/// that fails its test is given up, and the search goes on behind the step
/// that failed. The search ends without result where a run would reach the
/// last block of the heap.
pub open spec fn scan(heap: HeapView, align: usize, needed: int, cur: int) -> Option<int>
    decreases heap.blocks.len() - cur,
{
    if cur < 0 || needed < 0 || cur + needed >= heap.blocks.len() {
        None
    } else if !aligned(heap.address(cur) as usize, align) {
        scan(heap, align, needed, cur + 1)
    } else {
        proof {
            lemma_probe(heap.blocks, cur, cur, needed);
        }
        let tested = probe(heap.blocks, cur, cur, needed);
        if tested.0 && heap.address(cur) != 0 {
            Some(cur)
        } else if tested.1 > cur {
            scan(heap, align, needed, tested.1)
        } else {
            None
        }
    }
}

/// A test that succeeds has found every block of the run free; one that
/// fails has moved on.
pub proof fn lemma_probe(blocks: Seq<bool>, start: int, cur: int, needed: int)
    requires
        start <= cur <= start + needed,
        range_is(blocks, start, cur, false),
    ensures
        probe(blocks, start, cur, needed).0 ==> range_is(blocks, start, start + needed, false),
        probe(blocks, start, cur, needed).0 ==> probe(blocks, start, cur, needed).1 == start
            + needed,
        !probe(blocks, start, cur, needed).0 ==> cur < probe(blocks, start, cur, needed).1 <= start
            + needed,
        !probe(blocks, start, cur, needed).0 ==> !range_is(blocks, start, start + needed, false),
    decreases start + needed - cur,
{
    if cur < start + needed {
        let next = cur + step_blocks(cur % 8, needed - (cur - start));
        if range_is(blocks, cur, next, false) {
            lemma_probe(blocks, start, next, needed);
        }
    }
}

/// What the search finds is a run of free blocks, within the heap, at an
/// address that meets the alignment.
pub proof fn lemma_scan(heap: HeapView, align: usize, needed: int, cur: int)
    requires
        0 <= cur,
        0 <= needed,
    ensures
        match scan(heap, align, needed, cur) {
            Some(start) => {
                &&& cur <= start
                &&& start + needed < heap.blocks.len()
                &&& range_is(heap.blocks, start, start + needed, false)
                &&& aligned(heap.address(start) as usize, align)
                &&& heap.address(start) != 0
            },
            None => true,
        },
    decreases heap.blocks.len() - cur,
{
    if cur + needed < heap.blocks.len() {
        if !aligned(heap.address(cur) as usize, align) {
            lemma_scan(heap, align, needed, cur + 1);
        } else {
            lemma_probe(heap.blocks, cur, cur, needed);
            let (free, stop) = probe(heap.blocks, cur, cur, needed);
            if !(free && heap.address(cur) != 0) && stop > cur {
                lemma_scan(heap, align, needed, stop);
            }
        }
    }
}

impl HeapView {
    /// The heap after an allocation of `needed` blocks with alignment
    /// `align`; unchanged if the search finds no room.
    pub open spec fn after_alloc(self, align: usize, needed: int) -> HeapView {
        match scan(self, align, needed, 0) {
            Some(start) => HeapView {
                blocks: with_range(self.blocks, start, start + needed, true),
                remaining: (self.remaining - needed * 16) as usize,
                ..self
            },
            None => self,
        }
    }
}

impl Heap {
    /// Tests the run of `needed` blocks that starts at `start`. Returns
    /// whether all of them are free, and where the test stopped.
    fn probe_run(&self, start: usize, needed: usize) -> (r: (bool, usize))
        requires
            self.wf(),
            start + needed <= self@.blocks.len(),
        ensures
            (r.0, r.1 as int) == probe(self@.blocks, start as int, start as int, needed as int),
            start <= r.1 <= start + needed,
    {
        let mut cur_block: usize = start;
        let mut free: bool = true;
        proof {
            lemma_probe(self@.blocks, start as int, start as int, needed as int);
        }
        while free && cur_block < start + needed
            invariant
                self.wf(),
                start <= cur_block <= start + needed,
                start + needed <= self@.blocks.len(),
                free ==> probe(self@.blocks, start as int, start as int, needed as int) == probe(
                    self@.blocks,
                    start as int,
                    cur_block as int,
                    needed as int,
                ),
                !free ==> probe(self@.blocks, start as int, start as int, needed as int) == (
                    false,
                    cur_block as int,
                ),
            decreases start + needed - cur_block + if free {
                1int
            } else {
                0int
            },
        {
            let blocks_remaining: usize = needed - (cur_block - start);
            let idx: usize = cur_block / 8;
            let bit: usize = cur_block % 8;
            let ghost from = cur_block;
            let bit_mask: u8 = get_bit_mask(bit, blocks_remaining, &mut cur_block);
            assert(self.num_blocks == self@.blocks.len());
            assert(idx < self.free_list@.len());
            let byte: u8 = self.free_list[idx];
            proof {
                lemma_common_bit(byte, bit_mask);
                assert forall|i: int| from <= i < cur_block implies self@.blocks[i] == bit_set(
                    byte,
                    i % 8,
                ) && bit_set(bit_mask, i % 8) && i / 8 == idx by {
                    assert(bit_set(bit_mask, i % 8) <==> bit <= i % 8 < bit + (cur_block - from));
                }
                if byte & bit_mask != 0 {
                    let j = if bit_set(byte, 0) && bit_set(bit_mask, 0) {
                        0int
                    } else if bit_set(byte, 1) && bit_set(bit_mask, 1) {
                        1int
                    } else if bit_set(byte, 2) && bit_set(bit_mask, 2) {
                        2int
                    } else if bit_set(byte, 3) && bit_set(bit_mask, 3) {
                        3int
                    } else if bit_set(byte, 4) && bit_set(bit_mask, 4) {
                        4int
                    } else if bit_set(byte, 5) && bit_set(bit_mask, 5) {
                        5int
                    } else if bit_set(byte, 6) && bit_set(bit_mask, 6) {
                        6int
                    } else {
                        7int
                    };
                    assert(bit_set(byte, j) && bit_set(bit_mask, j));
                    assert(bit_set(bit_mask, j) <==> bit <= j < bit + (cur_block - from));
                    let i = idx * 8 + j;
                    assert(from <= i < cur_block);
                    assert(self@.blocks[i]);
                    assert(!range_is(self@.blocks, from as int, cur_block as int, false));
                } else {
                    assert forall|i: int| from <= i < cur_block implies #[trigger] self@.blocks[i]
                        == false by {
                        assert(bit_set(byte, i % 8) && bit_set(bit_mask, i % 8) ==> byte & bit_mask
                            != 0);
                    }
                    assert(range_is(self@.blocks, from as int, cur_block as int, false));
                }
            }
            if byte & bit_mask != 0 {
                free = false;
            }
        }
        (free, cur_block)
    }

    /// Allocates `layout.size` bytes, rounded up to whole blocks, at an
    /// address that meets `layout.align`. Returns the address, or `None`,
    /// with nothing changed, if the search finds no room.
    pub fn allocate(&mut self, layout: LayoutFFI) -> (ptr: Option<usize>)
        requires
            old(self).wf(),
            layout.align > 0,
        ensures
            final(self).wf(),
            ptr == match scan(old(self)@, layout.align, blocks_for(layout.size as int), 0) {
                Some(start) => Some(old(self)@.address(start) as usize),
                None => None,
            },
            final(self)@ == old(self)@.after_alloc(layout.align, blocks_for(layout.size as int)),
    {
        let blocks_needed: usize = if layout.size % BLOCK_SIZE == 0 {
            layout.size / BLOCK_SIZE
        } else {
            (layout.size / BLOCK_SIZE) + 1
        };
        let ghost before = self@;
        let mut cur_block: usize = 0;
        assert(self.num_blocks == self@.blocks.len());
        // Loop through the heap to find an unallocated group of blocks with enough room.
        while cur_block + blocks_needed < self.num_blocks
            invariant
                self.wf(),
                self@ == before,
                before == old(self)@,
                self.num_blocks == before.blocks.len(),
                before.base == self.heap,
                cur_block <= self.num_blocks,
                blocks_needed == blocks_for(layout.size as int),
                layout.align > 0,
                scan(before, layout.align, blocks_needed as int, 0) == scan(
                    before,
                    layout.align,
                    blocks_needed as int,
                    cur_block as int,
                ),
            decreases self.num_blocks - cur_block,
        {
            // Determine the location corresponding to this block.
            assert(cur_block * 16 <= before.blocks.len() * 16) by (nonlinear_arith)
                requires
                    cur_block <= before.blocks.len(),
            ;
            let ptr: usize = self.heap + cur_block * BLOCK_SIZE;
            // If this block doesn't meet the alignment requirements, move on.
            if ptr & (layout.align - 1) != 0 {
                cur_block += 1;
                continue ;
            }
            // See if there's enough room at this block.
            let start_block: usize = cur_block;
            let (free, stop) = self.probe_run(start_block, blocks_needed);
            proof {
                lemma_probe(
                    before.blocks,
                    start_block as int,
                    start_block as int,
                    blocks_needed as int,
                );
            }
            if free && ptr != 0 {
                // Mark the data locations as allocated.
                proof {
                    lemma_free_count_range(
                        before.blocks,
                        start_block as int,
                        start_block + blocks_needed,
                        true,
                    );
                    assert(blocks_needed * 16 <= free_count(before.blocks) * 16) by (nonlinear_arith)
                        requires
                            blocks_needed <= free_count(before.blocks),
                    ;
                }
                self.mark_range(start_block, blocks_needed, true);
                self.heap_remaining -= blocks_needed * BLOCK_SIZE;
                return Some(ptr);
            }
            if stop > start_block {
                cur_block = stop;
            } else {
                return None;
            }
        }
        None
    }
}

/// The global allocator of the kernel: the heap together with the interface
/// that the language runtime asks of an allocator.
pub struct KernelAllocator {
    heap: Heap,
}

impl View for KernelAllocator {
    type V = HeapView;

    closed spec fn view(&self) -> HeapView {
        self.heap@
    }
}

impl KernelAllocator {
    /// Whether the heap is consistent.
    pub closed spec fn wf(&self) -> bool {
        self.heap.wf()
    }

    /// Lays out the heap in the region from `sheap` up to `eheap`, with all
    /// blocks free.
    pub fn new(sheap: usize, eheap: usize) -> (allocator: KernelAllocator)
        requires
            sheap + 15 <= eheap,
            (eheap - sheap) * 128 <= usize::MAX,
        ensures
            allocator.wf(),
            allocator@.wf(),
            allocator@.free_list == align_down(sheap + 15),
            allocator@.blocks.len() == align_down(
                align_down(eheap - allocator@.free_list) * 128 / 129,
            ) / 16,
            allocator@.remaining == allocator@.blocks.len() * 16,
            range_is(allocator@.blocks, 0, allocator@.blocks.len() as int, false),
            allocator@.base + allocator@.blocks.len() * 16 <= eheap,
    {
        KernelAllocator { heap: init_heap(sheap, eheap) }
    }

    /// Allocates `size` bytes at an address that meets the alignment
    /// `align`. Returns the address, or `None`, with nothing changed, if
    /// there is no room.
    pub fn allocate(&mut self, size: usize, align: usize) -> (ptr: Option<usize>)
        requires
            old(self).wf(),
            align > 0,
        ensures
            final(self).wf(),
            ptr == match scan(old(self)@, align, blocks_for(size as int), 0) {
                Some(start) => Some(old(self)@.address(start) as usize),
                None => None,
            },
            final(self)@ == old(self)@.after_alloc(align, blocks_for(size as int)),
    {
        let layout_ffi = LayoutFFI { size, align };
        self.heap.allocate(layout_ffi)
    }

    /// Gives back the `size` bytes at `ptr`, which have to come from an
    /// earlier allocation of that size that has not been given back yet.
    pub fn dealloc(&mut self, ptr: usize, size: usize, align: usize)
        requires
            old(self).wf(),
            ptr >= old(self)@.base,
            (ptr - old(self)@.base) / 16 + blocks_for(size as int) <= old(self)@.blocks.len(),
            range_is(
                old(self)@.blocks,
                (ptr - old(self)@.base) / 16,
                (ptr - old(self)@.base) / 16 + blocks_for(size as int),
                true,
            ),
        ensures
            final(self).wf(),
            final(self)@ == (HeapView {
                blocks: with_range(
                    old(self)@.blocks,
                    (ptr - old(self)@.base) / 16,
                    (ptr - old(self)@.base) / 16 + blocks_for(size as int),
                    false,
                ),
                remaining: (old(self)@.remaining + blocks_for(size as int) * 16) as usize,
                ..old(self)@
            }),
    {
        let layout_ffi = LayoutFFI { size, align };
        self.heap.dealloc(ptr, layout_ffi);
    }

    /// How many bytes of the heap are free.
    pub fn get_heap_remaining(&self) -> (bytes: usize)
        ensures
            bytes == self@.remaining,
    {
        self.heap.get_heap_remaining()
    }

    /// Whether the `size` bytes at `ptr` lie in the usable heap and all the
    /// blocks they take are allocated, so that they can be given back.
    pub fn owns(&self, ptr: usize, size: usize) -> (owned: bool)
        requires
            self.wf(),
        ensures
            owned == (ptr >= self@.base && (ptr - self@.base) / 16 + blocks_for(size as int)
                <= self@.blocks.len() && range_is(
                self@.blocks,
                (ptr - self@.base) / 16,
                (ptr - self@.base) / 16 + blocks_for(size as int),
                true,
            )),
    {
        self.heap.owns(ptr, size)
    }
}

impl Heap {
    /// Whether block `i` is allocated.
    fn is_allocated(&self, i: usize) -> (allocated: bool)
        requires
            self.covered(),
            i < self@.blocks.len(),
        ensures
            allocated == self@.blocks[i as int],
    {
        assert(self.num_blocks == self@.blocks.len());
        let byte: u8 = self.free_list[i / 8];
        let shift: u8 = (i % 8) as u8;
        (byte >> shift) & 1u8 == 1u8
    }

    /// Whether the `size` bytes at `ptr` lie in the usable heap and all the
    /// blocks they take are allocated, so that they can be given back.
    pub fn owns(&self, ptr: usize, size: usize) -> (owned: bool)
        requires
            self.wf(),
        ensures
            owned == (ptr >= self@.base && (ptr - self@.base) / 16 + blocks_for(size as int)
                <= self@.blocks.len() && range_is(
                self@.blocks,
                (ptr - self@.base) / 16,
                (ptr - self@.base) / 16 + blocks_for(size as int),
                true,
            )),
    {
        if ptr < self.heap {
            return false;
        }
        let start: usize = (ptr - self.heap) / BLOCK_SIZE;
        let count: usize = if size % BLOCK_SIZE == 0 {
            size / BLOCK_SIZE
        } else {
            (size / BLOCK_SIZE) + 1
        };
        assert(self.num_blocks == self@.blocks.len());
        if start > self.num_blocks || count > self.num_blocks - start {
            return false;
        }
        let mut i: usize = start;
        while i < start + count
            invariant
                self.wf(),
                start <= i <= start + count,
                start + count <= self@.blocks.len(),
                ptr >= self@.base,
                start == (ptr - self@.base) / 16,
                count == blocks_for(size as int),
                range_is(self@.blocks, start as int, i as int, true),
            decreases start + count - i,
        {
            if !self.is_allocated(i) {
                assert(self@.blocks[i as int] == false);
                return false;
            }
            i += 1;
        }
        true
    }
}

} // verus!
