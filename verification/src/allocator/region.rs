//! The region as a mathematical state: how far it is filled and how many
//! allocations are outstanding, and how requests change that.

use super::layout::{lemma_round_up_is_multiple, Layout};
use super::{AllocError, AllocResult};
use vstd::arithmetic::div_mod::{
    lemma_add_mod_noop, lemma_fundamental_div_mod, lemma_mod_multiples_basic, lemma_small_mod,
};
use vstd::arithmetic::power2::{lemma_pow2_adds, lemma_pow2_pos, pow2};
use vstd::prelude::*;

verus! {

/// The number of bytes in the region.
pub const CAPACITY: usize = 10 * 1024 * 1024;

/// The state of the region.
pub struct Region {
    /// Offset of the first unused byte: the bytes below it have been handed
    /// out.
    pub cursor: nat,
    /// The number of allocations that have not been freed.
    pub live_count: nat,
}

impl Region {
    /// The region with nothing handed out.
    pub open spec fn empty() -> Region {
        Region { cursor: 0, live_count: 0 }
    }

    /// The cursor lies inside the region, and a region without outstanding
    /// allocations is empty.
    pub open spec fn wf(self) -> bool {
        &&& self.cursor <= CAPACITY
        &&& self.live_count == 0 ==> self.cursor == 0
    }

    /// Whether the unused part of the region holds the rounded size of
    /// `layout`.
    pub open spec fn fits(self, layout: Layout) -> bool {
        self.cursor + layout.rounded_size() <= CAPACITY
    }

    /// What a request for `layout` returns: the offset at which the
    /// allocation starts, which is the cursor, or `NoMemory` if the request
    /// does not fit.
    pub open spec fn alloc_result(self, layout: Layout) -> AllocResult<usize> {
        if self.fits(layout) {
            Ok(self.cursor as usize)
        } else {
            Err(AllocError::NoMemory)
        }
    }

    /// The region after a request for `layout`: a request that fits moves
    /// the cursor past its rounded size and is counted, one that does not
    /// fit changes nothing.
    pub open spec fn after_alloc(self, layout: Layout) -> Region {
        if self.fits(layout) {
            Region {
                cursor: self.cursor + layout.rounded_size(),
                live_count: self.live_count + 1,
            }
        } else {
            self
        }
    }

    /// The region after one allocation is freed. Freeing the last
    /// outstanding allocation empties the region; freeing any other only
    /// lowers the count; with nothing outstanding, nothing changes.
    pub open spec fn after_dealloc(self) -> Region {
        if self.live_count == 0 {
            self
        } else if self.live_count == 1 {
            Region::empty()
        } else {
            Region { cursor: self.cursor, live_count: (self.live_count - 1) as nat }
        }
    }

    /// The region after the requests `layouts`, made in order.
    pub open spec fn after_allocs(self, layouts: Seq<Layout>) -> Region
        decreases layouts.len(),
    {
        if layouts.len() == 0 {
            self
        } else {
            self.after_allocs(layouts.drop_last()).after_alloc(layouts.last())
        }
    }

    /// The region after `count` allocations are freed.
    pub open spec fn after_deallocs(self, count: nat) -> Region
        decreases count,
    {
        if count == 0 {
            self
        } else {
            self.after_deallocs((count - 1) as nat).after_dealloc()
        }
    }
}

/// The sum of the rounded sizes of `layouts`.
pub open spec fn total_rounded_size(layouts: Seq<Layout>) -> nat
    decreases layouts.len(),
{
    if layouts.len() == 0 {
        0
    } else {
        total_rounded_size(layouts.drop_last()) + layouts.last().rounded_size()
    }
}

/// The rounded sizes of the first `count` requests add up to no more than
/// those of all of them, and each request adds its rounded size to the sum
/// of those before it.
proof fn lemma_total_of_prefix(layouts: Seq<Layout>, count: int)
    requires
        0 <= count <= layouts.len(),
    ensures
        total_rounded_size(layouts.take(count)) <= total_rounded_size(layouts),
        count < layouts.len() ==> total_rounded_size(layouts.take(count + 1))
            == total_rounded_size(layouts.take(count)) + layouts[count].rounded_size(),
    decreases layouts.len() - count,
{
    if count < layouts.len() {
        assert(layouts.take(count + 1).drop_last() == layouts.take(count));
        lemma_total_of_prefix(layouts, count + 1);
    } else {
        assert(layouts.take(count) == layouts);
    }
}

/// Requests that fit together into what is left of the region are all
/// granted: the cursor moves by the sum of their rounded sizes and each of
/// them is counted.
pub proof fn lemma_allocs_that_fit_are_granted(region: Region, layouts: Seq<Layout>)
    requires
        region.cursor + total_rounded_size(layouts) <= CAPACITY,
    ensures
        region.after_allocs(layouts).cursor == region.cursor + total_rounded_size(layouts),
        region.after_allocs(layouts).live_count == region.live_count + layouts.len(),
        forall|k: int|
            0 <= k < layouts.len() ==> #[trigger] region.after_allocs(layouts.take(k)).fits(
                layouts[k],
            ),
    decreases layouts.len(),
{
    if layouts.len() > 0 {
        let front = layouts.drop_last();
        lemma_allocs_that_fit_are_granted(region, front);
        assert forall|k: int| 0 <= k < layouts.len() implies #[trigger] region.after_allocs(
            layouts.take(k),
        ).fits(layouts[k]) by {
            if k < front.len() {
                assert(front.take(k) == layouts.take(k));
                assert(region.after_allocs(front.take(k)).fits(front[k]));
            } else {
                assert(layouts.take(k) == front);
            }
        }
    }
}

/// Of two requests in a run of requests that fit together into what is left
/// of the region, both are granted, the earlier allocation ends where the
/// later one starts or before it, and the later one ends inside the region.
pub proof fn lemma_allocations_do_not_overlap(
    region: Region,
    layouts: Seq<Layout>,
    earlier: int,
    later: int,
)
    requires
        region.cursor + total_rounded_size(layouts) <= CAPACITY,
        0 <= earlier < later < layouts.len(),
    ensures
        region.after_allocs(layouts.take(earlier)).alloc_result(layouts[earlier]) is Ok,
        region.after_allocs(layouts.take(later)).alloc_result(layouts[later]) is Ok,
        region.after_allocs(layouts.take(earlier)).cursor + layouts[earlier].rounded_size()
            <= region.after_allocs(layouts.take(later)).cursor,
        region.after_allocs(layouts.take(later)).cursor + layouts[later].rounded_size()
            <= CAPACITY,
{
    lemma_total_of_prefix(layouts, earlier);
    lemma_total_of_prefix(layouts, later);
    lemma_total_of_prefix(layouts, later + 1);
    lemma_allocs_that_fit_are_granted(region, layouts.take(earlier));
    lemma_allocs_that_fit_are_granted(region, layouts.take(later));
    let up_to_later = layouts.take(later);
    assert(up_to_later.take(earlier + 1) == layouts.take(earlier + 1));
    lemma_total_of_prefix(up_to_later, earlier + 1);
}

/// The first request of a run that no longer fits is refused with
/// `NoMemory` and leaves the region as it was.
pub proof fn lemma_alloc_beyond_capacity_is_refused(
    region: Region,
    layouts: Seq<Layout>,
    first_over: int,
)
    requires
        0 <= first_over < layouts.len(),
        region.cursor + total_rounded_size(layouts.take(first_over)) <= CAPACITY,
        region.cursor + total_rounded_size(layouts.take(first_over + 1)) > CAPACITY,
    ensures
        region.after_allocs(layouts.take(first_over)).alloc_result(layouts[first_over]) == Err::<
            usize,
            AllocError,
        >(AllocError::NoMemory),
        region.after_allocs(layouts.take(first_over + 1)) == region.after_allocs(
            layouts.take(first_over),
        ),
{
    lemma_total_of_prefix(layouts, first_over);
    lemma_allocs_that_fit_are_granted(region, layouts.take(first_over));
    assert(layouts.take(first_over + 1).drop_last() == layouts.take(first_over));
}

/// An allocation made while the cursor is a multiple of the request's
/// alignment starts at a multiple of that alignment.
pub proof fn lemma_alloc_at_aligned_cursor_is_aligned(region: Region, layout: Layout)
    requires
        region.wf(),
        region.cursor % layout.alignment() == 0,
    ensures
        region.alloc_result(layout) matches Ok(start) ==> start as nat % layout.alignment() == 0,
{
}

/// A run of requests, each aligned to `2^exp` bytes or more, keeps the
/// cursor at a multiple of `2^exp` if it was at one before.
pub proof fn lemma_cursor_stays_aligned(region: Region, layouts: Seq<Layout>, exp: nat)
    requires
        region.cursor % pow2(exp) == 0,
        forall|k: int| 0 <= k < layouts.len() ==> exp <= #[trigger] layouts[k].align(),
    ensures
        region.after_allocs(layouts).cursor % pow2(exp) == 0,
    decreases layouts.len(),
{
    if layouts.len() > 0 {
        let front = layouts.drop_last();
        let last = layouts.last();
        assert forall|k: int| 0 <= k < front.len() implies exp <= #[trigger] front[k].align() by {
            assert(front[k] == layouts[k]);
        }
        lemma_cursor_stays_aligned(region, front, exp);
        let before = region.after_allocs(front);
        if before.fits(last) {
            lemma_rounded_size_is_multiple_of_lower_power(last, exp);
            lemma_pow2_pos(exp);
            lemma_add_mod_noop(
                before.cursor as int,
                last.rounded_size() as int,
                pow2(exp) as int,
            );
            lemma_small_mod(0, pow2(exp));
        }
    }
}

/// The rounded size of a request is a multiple of every power of two up to
/// its alignment.
proof fn lemma_rounded_size_is_multiple_of_lower_power(layout: Layout, exp: nat)
    requires
        exp <= layout.align(),
    ensures
        layout.rounded_size() % pow2(exp) == 0,
{
    let align = layout.alignment();
    let low = pow2(exp);
    let high = pow2((layout.align() - exp) as nat);
    lemma_pow2_pos(layout.align() as nat);
    lemma_pow2_pos(exp);
    lemma_pow2_adds(exp, (layout.align() - exp) as nat);
    lemma_round_up_is_multiple(layout.size() as nat, align);
    let rounded = layout.rounded_size();
    let q = rounded as int / align as int;
    lemma_fundamental_div_mod(rounded as int, align as int);
    assert(rounded == (q * high) * low) by (nonlinear_arith)
        requires
            rounded == align * q,
            align == low * high,
    ;
    lemma_mod_multiples_basic(q * high, low as int);
}

/// The region stays well formed under any run of requests.
pub proof fn lemma_allocs_keep_wf(region: Region, layouts: Seq<Layout>)
    requires
        region.wf(),
    ensures
        region.after_allocs(layouts).wf(),
        region.after_allocs(layouts).live_count <= region.live_count + layouts.len(),
    decreases layouts.len(),
{
    if layouts.len() > 0 {
        lemma_allocs_keep_wf(region, layouts.drop_last());
    }
}

/// Freeing at least as many allocations as are outstanding empties the
/// region.
pub proof fn lemma_deallocs_empty_the_region(region: Region, count: nat)
    requires
        region.wf(),
        region.live_count <= count,
    ensures
        region.after_deallocs(count) == Region::empty(),
    decreases count,
{
    if count > 0 {
        if region.live_count < count {
            lemma_deallocs_empty_the_region(region, (count - 1) as nat);
        } else {
            lemma_deallocs_below_live_count(region, (count - 1) as nat);
        }
    }
}

/// Freeing fewer allocations than are outstanding leaves the cursor where
/// it is and lowers the count by the number freed.
pub proof fn lemma_deallocs_below_live_count(region: Region, count: nat)
    requires
        count < region.live_count,
    ensures
        region.after_deallocs(count) == (Region {
            cursor: region.cursor,
            live_count: (region.live_count - count) as nat,
        }),
    decreases count,
{
    if count > 0 {
        lemma_deallocs_below_live_count(region, (count - 1) as nat);
    }
}

/// After any run of requests on an empty region and as many frees as there
/// were requests, the region is empty again, and a further request is
/// granted at offset 0 whenever its rounded size is within the capacity.
pub proof fn lemma_full_reclaim(layouts: Seq<Layout>, next: Layout)
    ensures
        Region::empty().after_allocs(layouts).after_deallocs(layouts.len()) == Region::empty(),
        next.rounded_size() <= CAPACITY ==> Region::empty().after_allocs(layouts).after_deallocs(
            layouts.len(),
        ).alloc_result(next) == Ok::<usize, AllocError>(0),
{
    lemma_allocs_keep_wf(Region::empty(), layouts);
    lemma_deallocs_empty_the_region(Region::empty().after_allocs(layouts), layouts.len());
}

/// After a run of granted requests and fewer frees than there were
/// requests, the cursor is where the requests left it.
pub proof fn lemma_partial_free_keeps_cursor(region: Region, layouts: Seq<Layout>, frees: nat)
    requires
        region.cursor + total_rounded_size(layouts) <= CAPACITY,
        frees < layouts.len(),
    ensures
        region.after_allocs(layouts).after_deallocs(frees).cursor == region.after_allocs(
            layouts,
        ).cursor,
{
    lemma_allocs_that_fit_are_granted(region, layouts);
    lemma_deallocs_below_live_count(region.after_allocs(layouts), frees);
}

} // verus!
