use vstd::prelude::*;
use x86_64::structures::paging::{PhysFrame, Size4KiB};
use x86_64::PhysAddr;

verus! {

pub const PAGE_SIZE: u64 = 4096;

/// A region of physical memory from the boot loader's memory map: its first address,
/// the address just past it, and whether it is free for use.
#[derive(Debug, Clone, Copy, PartialEq, Eq, Structural)]
pub struct MemoryRegion {
    pub start_addr: u64,
    pub end_addr: u64,
    pub usable: bool,
}

/// The number of 4 KiB steps from the region's start that lie before its end, for a
/// usable region; none for any other.
pub open spec fn region_frame_count(r: MemoryRegion) -> nat {
    if r.usable && r.start_addr < r.end_addr {
        ((r.end_addr - r.start_addr - 1) / 4096 + 1) as nat
    } else {
        0
    }
}

/// The addresses the allocator hands out frames for, in order: the start of each
/// usable region and every 4 KiB after it before its end.
pub open spec fn frame_addresses(regions: Seq<MemoryRegion>) -> Seq<int>
    decreases regions.len(),
{
    if regions.len() == 0 {
        Seq::empty()
    } else {
        let r = regions.last();
        frame_addresses(regions.drop_last()) + Seq::new(region_frame_count(r), |k: int| r.start_addr + 4096 * k)
    }
}

/// The start of the 4 KiB frame that holds address `a`.
pub open spec fn frame_start(a: int) -> int {
    a - a % 4096
}

/// `PhysFrame::<Size4KiB>::containing_address(PhysAddr::new(addr))`, returned as the
/// frame's start address. `PhysAddr::new` panics when any of bits 52 to 63 is set,
/// hence the bound; the frame starts at `addr` aligned down to 4 KiB.
#[verifier::external_body]
fn containing_frame(addr: u64) -> (r: u64)
    requires
        addr < 0x10_0000_0000_0000,
    ensures
        r == frame_start(addr as int),
{
    PhysFrame::<Size4KiB>::containing_address(PhysAddr::new(addr)).start_address().as_u64()
}

/// Hands out the usable 4 KiB frames of the boot memory map one after another.
pub struct BootInfoFrameAllocator {
    memory_map: Vec<MemoryRegion>,
    next: usize,
}

impl BootInfoFrameAllocator {
    pub closed spec fn regions(&self) -> Seq<MemoryRegion> {
        self.memory_map@
    }

    pub closed spec fn next_index(&self) -> usize {
        self.next
    }

    /// An allocator over `memory_map` that has handed out no frame.
    pub fn init(memory_map: Vec<MemoryRegion>) -> (a: BootInfoFrameAllocator)
        ensures
            a.regions() == memory_map@,
            a.next_index() == 0,
    {
        BootInfoFrameAllocator { memory_map, next: 0 }
    }

    /// The number of frames the allocator has handed out or tried to.
    pub fn allocated(&self) -> (r: usize)
        ensures
            r == self.next_index(),
    {
        self.next
    }

    /// Whether the frame addresses the next allocation passes through, those of all
    /// frames up to and including the next one, fit in 52 bits.
    pub fn next_frame_addressable(&self) -> (r: bool)
        ensures
            r == (forall|k: int| 0 <= k <= self.next_index() && k < frame_addresses(self.regions()).len()
                ==> #[trigger] frame_addresses(self.regions())[k] < 0x10_0000_0000_0000),
    {
        let ghost regions = self.memory_map@;
        let ghost n = self.next as int;
        let mut remaining: u64 = self.next as u64;
        let mut i: usize = 0;
        while i < self.memory_map.len()
            invariant
                i <= regions.len(),
                regions == self.memory_map@,
                n == self.next,
                frame_addresses(regions.take(i as int)).len() + remaining == n,
                forall|k: int| 0 <= k < frame_addresses(regions.take(i as int)).len()
                    ==> #[trigger] frame_addresses(regions.take(i as int))[k] < 0x10_0000_0000_0000,
            decreases regions.len() - i,
        {
            let region = self.memory_map[i];
            let ghost base = frame_addresses(regions.take(i as int)).len();
            proof {
                lemma_frame_addresses_prefix(regions, i as int + 1);
                assert(regions.take(i + 1).drop_last() =~= regions.take(i as int));
                assert(regions.take(i + 1).last() == region);
            }
            let count: u64 = if region.usable && region.start_addr < region.end_addr {
                (region.end_addr - region.start_addr - 1) / PAGE_SIZE + 1
            } else {
                0
            };
            assert(count == region_frame_count(region));
            let last_taken = remaining < count;
            let covered: u64 = if last_taken { remaining + 1 } else { count };
            if covered > 0 {
                let last = region.start_addr + PAGE_SIZE * (covered - 1);
                proof {
                    let j = base + covered - 1;
                    assert(frame_addresses(regions.take(i + 1))[j] == last);
                    assert(frame_addresses(regions)[j] == last);
                }
                if last >= 0x10_0000_0000_0000 {
                    proof {
                        let j = base + covered - 1;
                        assert(j <= n);
                        assert(j < frame_addresses(regions.take(i + 1)).len());
                        assert(frame_addresses(self.regions())[j] == last);
                    }
                    return false;
                }
                proof {
                    assert forall|k: int| 0 <= k < base + covered
                        implies #[trigger] frame_addresses(regions.take(i + 1))[k] < 0x10_0000_0000_0000 by {
                        if k < base {
                            assert(frame_addresses(regions.take(i + 1))[k] == frame_addresses(regions.take(i as int))[k]);
                        } else {
                            assert(frame_addresses(regions.take(i + 1))[k] == region.start_addr + 4096 * (k - base));
                            assert(4096 * (k - base) <= 4096 * (covered - 1)) by (nonlinear_arith)
                                requires
                                    k - base <= covered - 1,
                            ;
                        }
                    }
                }
            }
            if last_taken {
                proof {
                    assert forall|k: int| 0 <= k <= n && k < frame_addresses(regions).len()
                        implies #[trigger] frame_addresses(regions)[k] < 0x10_0000_0000_0000 by {
                        assert(frame_addresses(regions.take(i + 1))[k] == frame_addresses(regions)[k]);
                    }
                }
                return true;
            }
            remaining = remaining - count;
            i = i + 1;
        }
        proof {
            assert(regions.take(regions.len() as int) =~= regions);
        }
        true
    }

    /// The start address of the next usable frame, `None` once they are used up. Each
    /// call moves on by one, also when nothing is left. Every frame up to the one handed
    /// out is turned into a physical address on the way, which must fit in 52 bits.
    pub fn allocate_frame(&mut self) -> (r: Option<u64>)
        requires
            old(self).next_index() < usize::MAX,
            forall|k: int| 0 <= k <= old(self).next_index() && k < frame_addresses(old(self).regions()).len()
                ==> #[trigger] frame_addresses(old(self).regions())[k] < 0x10_0000_0000_0000,
        ensures
            final(self).regions() == old(self).regions(),
            final(self).next_index() == old(self).next_index() + 1,
            r == (if old(self).next_index() < frame_addresses(old(self).regions()).len() {
                Some(frame_start(frame_addresses(old(self).regions())[old(self).next_index() as int]) as u64)
            } else {
                None::<u64>
            }),
    {
        let ghost regions = self.memory_map@;
        let ghost n = self.next as int;
        let mut remaining: usize = self.next;
        let mut i: usize = 0;
        let mut found: Option<u64> = None;
        assert(regions.take(0) =~= Seq::<MemoryRegion>::empty());
        assert(regions == old(self).regions());
        assert(n == old(self).next_index());
        assert(forall|k: int| 0 <= k <= n && k < frame_addresses(regions).len()
            ==> #[trigger] frame_addresses(regions)[k] < 0x10_0000_0000_0000);
        while i < self.memory_map.len()
            invariant_except_break
                found is None,
                frame_addresses(regions.take(i as int)).len() + remaining == n,
            invariant
                i <= regions.len(),
                regions == self.memory_map@,
                n == self.next,
                forall|k: int| 0 <= k <= n && k < frame_addresses(regions).len()
                    ==> #[trigger] frame_addresses(regions)[k] < 0x10_0000_0000_0000,
            ensures
                found is None ==> i == regions.len() && frame_addresses(regions.take(i as int)).len() <= n,
                found matches Some(a) ==> n < frame_addresses(regions).len() && a == frame_addresses(regions)[n],
            decreases regions.len() - i,
        {
            proof {
                lemma_frame_addresses_prefix(regions, i as int + 1);
                assert(regions.take(i + 1).drop_last() =~= regions.take(i as int));
                assert(regions.take(i + 1).last() == regions[i as int]);
            }
            let region = self.memory_map[i];
            let count: u64 = if region.usable && region.start_addr < region.end_addr {
                (region.end_addr - region.start_addr - 1) / PAGE_SIZE + 1
            } else {
                0
            };
            assert(count == region_frame_count(region));
            if (remaining as u64) < count {
                assert(remaining as u64 as int == remaining as int);
                let addr = region.start_addr + PAGE_SIZE * (remaining as u64);
                proof {
                    assert(frame_addresses(regions.take(i + 1))[n] == region.start_addr + 4096 * remaining);
                    assert(frame_addresses(regions)[n] == frame_addresses(regions.take(i + 1))[n]);
                }
                found = Some(addr);
                break;
            }
            remaining = remaining - count as usize;
            i = i + 1;
        }
        proof {
            if found is None {
                assert(regions.take(regions.len() as int) =~= regions);
            }
        }
        let frame = match found {
            Some(addr) => Some(containing_frame(addr)),
            None => None,
        };
        self.next = self.next + 1;
        frame
    }
}

/// The frames of a prefix of the map come first among the frames of the whole map.
proof fn lemma_frame_addresses_prefix(regions: Seq<MemoryRegion>, m: int)
    requires
        0 <= m <= regions.len(),
    ensures
        frame_addresses(regions.take(m)).len() <= frame_addresses(regions).len(),
        forall|k: int| 0 <= k < frame_addresses(regions.take(m)).len()
            ==> #[trigger] frame_addresses(regions.take(m))[k] == frame_addresses(regions)[k],
    decreases regions.len() - m,
{
    if m < regions.len() {
        lemma_frame_addresses_prefix(regions, m + 1);
        assert(regions.take(m + 1).drop_last() =~= regions.take(m));
        let r = regions.take(m + 1).last();
        assert(frame_addresses(regions.take(m + 1)) == frame_addresses(regions.take(m)) + Seq::new(region_frame_count(r), |k: int| r.start_addr + 4096 * k));
        assert forall|k: int| 0 <= k < frame_addresses(regions.take(m)).len()
            implies #[trigger] frame_addresses(regions.take(m))[k] == frame_addresses(regions)[k] by {
            assert(frame_addresses(regions.take(m + 1))[k] == frame_addresses(regions.take(m))[k]);
        }
    } else {
        assert(regions.take(m) =~= regions);
    }
}

} // verus!
