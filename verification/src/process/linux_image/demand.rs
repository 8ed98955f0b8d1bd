//! How many page tables an image needs.

use super::error::LinuxImageError;
use super::layout::{PAGE_DIRECTORY_SPAN, PAGE_TABLE_SPAN};
use crate::mm::address_space::MAX_ADDRESS_SPACE_PAGE_TABLE_FRAMES;
use crate::mm::{align_down, floor_to, is_alignment, lemma_page_alignments};
use vstd::prelude::*;

verus! {

/// Distinct spans of addresses, no more than the page-table budget: one more is the failure.
#[derive(Debug)]
pub struct DistinctGranules {
    pub items: Vec<u64>,
}

/// The granules after one more, if it fits.
pub open spec fn granule_added(items: Seq<u64>, granule: u64) -> Option<Seq<u64>> {
    if items.contains(granule) {
        Some(items)
    } else if items.len() >= MAX_ADDRESS_SPACE_PAGE_TABLE_FRAMES {
        None
    } else {
        Some(items.push(granule))
    }
}

/// The granules after those from `granule` to `last`, if they fit.
pub open spec fn granules_added(items: Seq<u64>, granule: int, last: int, span: int) -> Option<
    Seq<u64>,
>
    decreases (if granule < last { last - granule } else { 0 }),
{
    match granule_added(items, granule as u64) {
        None => None,
        Some(more) => if granule >= last || span <= 0 {
            Some(more)
        } else {
            granules_added(more, granule + span, last, span)
        },
    }
}

/// The granules after those of a range.
pub open spec fn range_added(items: Seq<u64>, range: (u64, u64), span: int) -> Option<Seq<u64>> {
    granules_added(
        items,
        floor_to(range.0 as int, span),
        floor_to(range.1 - 1, span),
        span,
    )
}

impl DistinctGranules {
    pub open spec fn wf(&self) -> bool {
        &&& self.items@.len() <= MAX_ADDRESS_SPACE_PAGE_TABLE_FRAMES
        &&& self.items@.no_duplicates()
    }

    pub fn new() -> (r: DistinctGranules)
        ensures
            r.wf(),
            r.items@.len() == 0,
    {
        DistinctGranules { items: Vec::new() }
    }

    pub fn insert(&mut self, granule: u64) -> (r: Result<(), LinuxImageError>)
        requires
            old(self).wf(),
        ensures
            final(self).wf(),
            match granule_added(old(self).items@, granule) {
                Some(items) => r is Ok && final(self).items@ == items,
                None => r == Err::<(), LinuxImageError>(LinuxImageError::PageTableBudgetExceeded)
                    && final(self).items@ == old(self).items@,
            },
    {
        let mut i: usize = 0;
        while i < self.items.len()
            invariant
                0 <= i <= self.items@.len(),
                self.items@ == old(self).items@,
                self.wf(),
                forall|k: int| 0 <= k < i ==> self.items@[k] != granule,
            decreases self.items@.len() - i,
        {
            if self.items[i] == granule {
                assert(self.items@[i as int] == granule);
                return Ok(());
            }
            i += 1;
        }
        if self.items.len() >= MAX_ADDRESS_SPACE_PAGE_TABLE_FRAMES {
            return Err(LinuxImageError::PageTableBudgetExceeded);
        }
        self.items.push(granule);
        Ok(())
    }

    /// Adds the granules that a range touches.
    pub fn insert_range(&mut self, start: u64, end: u64, span: u64) -> (r: Result<
        (),
        LinuxImageError,
    >)
        requires
            old(self).wf(),
            start < end,
            is_alignment(span),
        ensures
            final(self).wf(),
            match range_added(old(self).items@, (start, end), span as int) {
                Some(items) => r is Ok && final(self).items@ == items,
                None => r == Err::<(), LinuxImageError>(LinuxImageError::PageTableBudgetExceeded),
            },
    {
        let first: u64 = align_down(start, span);
        let last: u64 = align_down(end - 1, span);
        proof {
            lemma_floor_order(start as int, end - 1, span as int);
        }
        let mut granule: u64 = first;
        while granule < last
            invariant
                self.wf(),
                span > 0,
                granule <= last,
                granule as int % span as int == 0,
                last as int % span as int == 0,
                first == floor_to(start as int, span as int),
                last == floor_to(end - 1, span as int),
                range_added(old(self).items@, (start, end), span as int) == granules_added(
                    self.items@,
                    granule as int,
                    last as int,
                    span as int,
                ),
            decreases last - granule,
        {
            match self.insert(granule) {
                Ok(()) => {},
                Err(e) => return Err(e),
            }
            proof {
                lemma_next_granule(granule as int, last as int, span as int);
            }
            granule = granule + span;
        }
        match self.insert(granule) {
            Ok(()) => Ok(()),
            Err(e) => Err(e),
        }
    }
}

/// A lower address has no higher granule, and granules are multiples of their span.
proof fn lemma_floor_order(low: int, high: int, span: int)
    requires
        0 <= low <= high,
        span > 0,
    ensures
        0 <= floor_to(low, span) <= floor_to(high, span),
        floor_to(low, span) % span == 0,
        floor_to(high, span) % span == 0,
{
    vstd::arithmetic::div_mod::lemma_fundamental_div_mod(low, span);
    vstd::arithmetic::div_mod::lemma_fundamental_div_mod(high, span);
    vstd::arithmetic::div_mod::lemma_div_is_ordered(low, high, span);
    vstd::arithmetic::mul::lemma_mul_inequality(low / span, high / span, span);
    vstd::arithmetic::mul::lemma_mul_is_commutative(span, low / span);
    vstd::arithmetic::mul::lemma_mul_is_commutative(span, high / span);
    vstd::arithmetic::div_mod::lemma_mod_multiples_basic(low / span, span);
    vstd::arithmetic::div_mod::lemma_mod_multiples_basic(high / span, span);
    vstd::arithmetic::div_mod::lemma_div_pos_is_pos(low, span);
    vstd::arithmetic::mul::lemma_mul_nonnegative(low / span, span);
}

/// Between two granules lies a whole span.
proof fn lemma_next_granule(granule: int, last: int, span: int)
    requires
        0 <= granule < last,
        span > 0,
        granule % span == 0,
        last % span == 0,
    ensures
        granule + span <= last,
        (granule + span) % span == 0,
{
    vstd::arithmetic::div_mod::lemma_fundamental_div_mod(granule, span);
    vstd::arithmetic::div_mod::lemma_fundamental_div_mod(last, span);
    let a = granule / span;
    let b = last / span;
    assert(a < b) by (nonlinear_arith)
        requires
            span > 0,
            span * a < span * b,
    ;
    assert(span * b >= span * a + span) by (nonlinear_arith)
        requires
            a < b,
            span > 0,
    ;
    vstd::arithmetic::div_mod::lemma_mod_add_multiples_vanish(granule, span);
}

/// The page tables and page directories of the ranges from `from` on, if they fit.
pub open spec fn tables_of(
    ranges: Seq<(u64, u64)>,
    tables: Seq<u64>,
    directories: Seq<u64>,
    from: int,
) -> Option<(Seq<u64>, Seq<u64>)>
    decreases ranges.len() - from,
{
    if from < 0 || from >= ranges.len() {
        Some((tables, directories))
    } else if ranges[from].0 >= ranges[from].1 {
        tables_of(ranges, tables, directories, from + 1)
    } else {
        match (
            range_added(tables, ranges[from], PAGE_TABLE_SPAN as int),
            range_added(directories, ranges[from], PAGE_DIRECTORY_SPAN as int),
        ) {
            (Some(t), Some(d)) => tables_of(ranges, t, d, from + 1),
            _ => None,
        }
    }
}

/// The page-table frames for mapping ranges: a root, one level-3 table, and the distinct directories
/// and tables.
pub open spec fn demand(ranges: Seq<(u64, u64)>) -> Result<usize, LinuxImageError> {
    match tables_of(ranges, seq![], seq![], 0) {
        Some((tables, directories)) => Ok((2 + tables.len() + directories.len()) as usize),
        None => Err(LinuxImageError::PageTableBudgetExceeded),
    }
}

/// Whether a range meets the granule of `span` bytes that begins at `granule`.
pub open spec fn meets(range: (u64, u64), granule: u64, span: int) -> bool {
    &&& granule as int % span == 0
    &&& range.0 < range.1
    &&& granule < range.1
    &&& range.0 < granule + span
}

/// Whether one of the first `n` ranges meets a granule.
pub open spec fn met(ranges: Seq<(u64, u64)>, n: int, granule: u64, span: int) -> bool {
    exists|i: int| 0 <= i < n && meets(#[trigger] ranges[i], granule, span)
}

/// The distinct granules that some range meets.
pub open spec fn touched(ranges: Seq<(u64, u64)>, span: int) -> Set<u64> {
    Set::new(|granule: u64| met(ranges, ranges.len() as int, granule, span))
}

/// The frames by the number of distinct granules: a root, one level-3 table, and one table for each
/// granule of either size, if the small ones are within the budget.
pub open spec fn granule_demand(ranges: Seq<(u64, u64)>) -> Result<usize, LinuxImageError> {
    let tables = touched(ranges, PAGE_TABLE_SPAN as int).len();
    let directories = touched(ranges, PAGE_DIRECTORY_SPAN as int).len();
    if tables <= MAX_ADDRESS_SPACE_PAGE_TABLE_FRAMES {
        Ok((2 + tables + directories) as usize)
    } else {
        Err(LinuxImageError::PageTableBudgetExceeded)
    }
}

/// Whether an address lies in one of the ranges.
pub open spec fn covered(ranges: Seq<(u64, u64)>, address: u64) -> bool {
    exists|i: int| 0 <= i < ranges.len() && (#[trigger] ranges[i]).0 <= address < ranges[i].1
}

/// The page-table frames for mapping page ranges inside one top-level slot: a root, one level-3
/// table, and a table for each distinct granule of either size that some range meets.
pub fn page_table_frame_demand(ranges: &[(u64, u64)]) -> (r: Result<usize, LinuxImageError>)
    ensures
        r == demand(ranges@),
        r == granule_demand(ranges@),
        r is Ok ==> 2 <= r->Ok_0 <= 2 + 2 * MAX_ADDRESS_SPACE_PAGE_TABLE_FRAMES,
{
    proof {
        lemma_page_alignments();
        law_demand_counts_granules(ranges@);
    }
    let mut tables = DistinctGranules::new();
    let mut directories = DistinctGranules::new();
    let mut i: usize = 0;
    assert(tables.items@ =~= seq![]);
    assert(directories.items@ =~= seq![]);
    while i < ranges.len()
        invariant
            0 <= i <= ranges@.len(),
            tables.wf(),
            directories.wf(),
            is_alignment(PAGE_TABLE_SPAN),
            is_alignment(PAGE_DIRECTORY_SPAN),
            demand(ranges@) == granule_demand(ranges@),
            tables_of(ranges@, seq![], seq![], 0) == tables_of(
                ranges@,
                tables.items@,
                directories.items@,
                i as int,
            ),
        decreases ranges@.len() - i,
    {
        let (start, end) = ranges[i];
        if start < end {
            match tables.insert_range(start, end, PAGE_TABLE_SPAN) {
                Ok(()) => {},
                Err(e) => return Err(e),
            }
            match directories.insert_range(start, end, PAGE_DIRECTORY_SPAN) {
                Ok(()) => {},
                Err(e) => return Err(e),
            }
        }
        i += 1;
    }
    Ok(2 + tables.items.len() + directories.items.len())
}

/// The granules of a range are added each once: afterwards there are exactly those that were there
/// and those that the range touches.
pub proof fn law_range_adds_its_granules(
    items: Seq<u64>,
    granule: int,
    last: int,
    span: int,
    g: u64,
)
    requires
        items.no_duplicates(),
        0 <= granule <= last <= u64::MAX,
        span > 0,
        granule % span == 0,
        last % span == 0,
        granules_added(items, granule, last, span) is Some,
    ensures
        ({
            let after = granules_added(items, granule, last, span)->0;
            &&& after.no_duplicates()
            &&& after.contains(g) <==> items.contains(g) || (granule <= g <= last && g as int % span
                == 0)
        }),
    decreases last - granule,
{
    let more = granule_added(items, granule as u64)->0;
    assert(more.no_duplicates());
    assert(more.contains(g) <==> items.contains(g) || g == granule) by {
        if !items.contains(granule as u64) {
            assert(more == items.push(granule as u64));
            if items.contains(g) {
                assert(more[items.index_of(g)] == g);
            }
            assert(more[items.len() as int] == granule as u64);
        }
    }
    if granule < last {
        lemma_next_granule(granule, last, span);
        law_range_adds_its_granules(more, granule + span, last, span, g);
        if granule < g < granule + span && g as int % span == 0 {
            lemma_next_granule(granule, g as int, span);
        }
    }
}

/// A range meets exactly the granules from that of its first address to that of its last.
proof fn lemma_meets(range: (u64, u64), granule: u64, span: int)
    requires
        range.0 < range.1,
        span > 0,
    ensures
        meets(range, granule, span) <==> granule as int % span == 0 && floor_to(
            range.0 as int,
            span,
        ) <= granule <= floor_to(range.1 - 1, span),
{
    let low = floor_to(range.0 as int, span);
    let high = floor_to(range.1 - 1, span);
    let g = granule as int;
    lemma_floor_order(range.0 as int, range.1 - 1, span);
    vstd::arithmetic::div_mod::lemma_mod_bound(range.0 as int, span);
    vstd::arithmetic::div_mod::lemma_mod_bound(range.1 - 1, span);
    if g % span == 0 {
        if g > high {
            lemma_next_granule(high, g, span);
        }
        if g < low {
            lemma_next_granule(g, low, span);
        }
    }
}

/// Where granules do not fit, more than the budget of them are distinct.
proof fn lemma_granules_overflow(items: Seq<u64>, granule: int, last: int, span: int) -> (w: Seq<
    u64,
>)
    requires
        items.no_duplicates(),
        0 <= granule <= last <= u64::MAX,
        span > 0,
        granule % span == 0,
        last % span == 0,
        granules_added(items, granule, last, span) is None,
    ensures
        w.no_duplicates(),
        w.len() > MAX_ADDRESS_SPACE_PAGE_TABLE_FRAMES,
        forall|g: u64| #[trigger]
            w.contains(g) ==> items.contains(g) || (granule <= g <= last && g as int % span == 0),
    decreases last - granule,
{
    match granule_added(items, granule as u64) {
        None => {
            let w = items.push(granule as u64);
            assert forall|g: u64| #[trigger] w.contains(g) implies items.contains(g) || (granule <= g
                <= last && g as int % span == 0) by {
                let k = choose|k: int| 0 <= k < w.len() && w[k] == g;
                if k < items.len() {
                    assert(items[k] == g);
                }
            }
            w
        },
        Some(more) => {
            lemma_next_granule(granule, last, span);
            let w = lemma_granules_overflow(more, granule + span, last, span);
            assert forall|g: u64| #[trigger] w.contains(g) implies items.contains(g) || (granule <= g
                <= last && g as int % span == 0) by {
                if more.contains(g) && !items.contains(g) {
                    let k = choose|k: int| 0 <= k < more.len() && more[k] == g;
                    if k < items.len() {
                        assert(items[k] == g);
                    }
                }
            }
            w
        },
    }
}

/// Adding a range's granules never goes over the budget.
proof fn lemma_granules_bounded(items: Seq<u64>, granule: int, last: int, span: int)
    requires
        items.len() <= MAX_ADDRESS_SPACE_PAGE_TABLE_FRAMES,
    ensures
        granules_added(items, granule, last, span) matches Some(after) ==> after.len()
            <= MAX_ADDRESS_SPACE_PAGE_TABLE_FRAMES,
    decreases (if granule < last { last - granule } else { 0 }),
{
    if let Some(more) = granule_added(items, granule as u64) {
        if granule < last && span > 0 {
            lemma_granules_bounded(more, granule + span, last, span);
        }
    }
}

/// `items` are, each once and no more than the budget, the granules that the first `n` ranges meet.
spec fn holds_granules(items: Seq<u64>, ranges: Seq<(u64, u64)>, n: int, span: int) -> bool {
    &&& items.no_duplicates()
    &&& items.len() <= MAX_ADDRESS_SPACE_PAGE_TABLE_FRAMES
    &&& forall|g: u64| #[trigger] items.contains(g) <==> met(ranges, n, g, span)
}

/// `w` are more distinct granules than the budget, all met by some range.
spec fn overflows(w: Seq<u64>, ranges: Seq<(u64, u64)>, span: int) -> bool {
    &&& w.no_duplicates()
    &&& w.len() > MAX_ADDRESS_SPACE_PAGE_TABLE_FRAMES
    &&& forall|g: u64| #[trigger] w.contains(g) ==> met(ranges, ranges.len() as int, g, span)
}

proof fn lemma_range_step(items: Seq<u64>, ranges: Seq<(u64, u64)>, n: int, span: int)
    requires
        0 <= n < ranges.len(),
        ranges[n].0 < ranges[n].1,
        span > 0,
        holds_granules(items, ranges, n, span),
    ensures
        match range_added(items, ranges[n], span) {
            Some(after) => holds_granules(after, ranges, n + 1, span),
            None => exists|w: Seq<u64>| overflows(w, ranges, span),
        },
{
    let range = ranges[n];
    let first = floor_to(range.0 as int, span);
    let last = floor_to(range.1 - 1, span);
    lemma_floor_order(range.0 as int, range.1 - 1, span);
    vstd::arithmetic::div_mod::lemma_mod_bound(range.1 - 1, span);
    lemma_granules_bounded(items, first, last, span);
    match range_added(items, range, span) {
        Some(after) => {
            law_range_adds_its_granules(items, first, last, span, 0);
            assert forall|g: u64| #[trigger] after.contains(g) <==> met(ranges, n + 1, g, span) by {
                law_range_adds_its_granules(items, first, last, span, g);
                lemma_meets(range, g, span);
                assert(items.contains(g) <==> met(ranges, n, g, span));
                if met(ranges, n, g, span) {
                    let i = choose|i: int| 0 <= i < n && meets(#[trigger] ranges[i], g, span);
                    assert(meets(ranges[i], g, span));
                }
                if meets(range, g, span) {
                    assert(meets(ranges[n], g, span));
                }
            }
        },
        None => {
            let w = lemma_granules_overflow(items, first, last, span);
            assert forall|g: u64| #[trigger] w.contains(g) implies met(
                ranges,
                ranges.len() as int,
                g,
                span,
            ) by {
                lemma_meets(range, g, span);
                if items.contains(g) {
                    let i = choose|i: int| 0 <= i < n && meets(#[trigger] ranges[i], g, span);
                    assert(meets(ranges[i], g, span));
                } else {
                    assert(meets(ranges[n], g, span));
                }
            }
            assert(overflows(w, ranges, span));
        },
    }
}

proof fn lemma_tables_of(
    ranges: Seq<(u64, u64)>,
    tables: Seq<u64>,
    directories: Seq<u64>,
    from: int,
)
    requires
        0 <= from <= ranges.len(),
        holds_granules(tables, ranges, from, PAGE_TABLE_SPAN as int),
        holds_granules(directories, ranges, from, PAGE_DIRECTORY_SPAN as int),
    ensures
        match tables_of(ranges, tables, directories, from) {
            Some((t, d)) => holds_granules(t, ranges, ranges.len() as int, PAGE_TABLE_SPAN as int)
                && holds_granules(d, ranges, ranges.len() as int, PAGE_DIRECTORY_SPAN as int),
            None => (exists|w: Seq<u64>| overflows(w, ranges, PAGE_TABLE_SPAN as int)) || (exists|
                w: Seq<u64>,
            | overflows(w, ranges, PAGE_DIRECTORY_SPAN as int)),
        },
    decreases ranges.len() - from,
{
    if from < ranges.len() {
        if ranges[from].0 >= ranges[from].1 {
            lemma_empty_range(tables, ranges, from, PAGE_TABLE_SPAN as int);
            lemma_empty_range(directories, ranges, from, PAGE_DIRECTORY_SPAN as int);
            lemma_tables_of(ranges, tables, directories, from + 1);
        } else {
            lemma_range_step(tables, ranges, from, PAGE_TABLE_SPAN as int);
            lemma_range_step(directories, ranges, from, PAGE_DIRECTORY_SPAN as int);
            match (
                range_added(tables, ranges[from], PAGE_TABLE_SPAN as int),
                range_added(directories, ranges[from], PAGE_DIRECTORY_SPAN as int),
            ) {
                (Some(t), Some(d)) => lemma_tables_of(ranges, t, d, from + 1),
                _ => {},
            }
        }
    }
}

proof fn lemma_empty_range(items: Seq<u64>, ranges: Seq<(u64, u64)>, n: int, span: int)
    requires
        0 <= n < ranges.len(),
        ranges[n].0 >= ranges[n].1,
        holds_granules(items, ranges, n, span),
    ensures
        holds_granules(items, ranges, n + 1, span),
{
    assert forall|g: u64| #[trigger] items.contains(g) <==> met(ranges, n + 1, g, span) by {
        assert(items.contains(g) <==> met(ranges, n, g, span));
        if met(ranges, n, g, span) {
            let i = choose|i: int| 0 <= i < n && meets(#[trigger] ranges[i], g, span);
            assert(meets(ranges[i], g, span));
        }
        if met(ranges, n + 1, g, span) {
            let i = choose|i: int| 0 <= i < n + 1 && meets(#[trigger] ranges[i], g, span);
            assert(i < n);
        }
    }
}

proof fn lemma_touched_finite(ranges: Seq<(u64, u64)>, span: int)
    ensures
        touched(ranges, span).finite(),
{
    let all = vstd::set_lib::set_int_range(0, u64::MAX + 1);
    let f = |i: int| i as u64;
    vstd::set_lib::lemma_int_range(0, u64::MAX + 1);
    vstd::set_lib::lemma_map_size_bound(all, all.map(f), f);
    assert(touched(ranges, span).subset_of(all.map(f))) by {
        assert forall|g: u64| #[trigger] touched(ranges, span).contains(g) implies all.map(
            f,
        ).contains(g) by {
            assert(all.contains(g as int) && f(g as int) == g);
        }
    }
    vstd::set_lib::lemma_len_subset(touched(ranges, span), all.map(f));
}

/// The count of granules that were added each once.
proof fn lemma_counted(items: Seq<u64>, ranges: Seq<(u64, u64)>, span: int)
    requires
        holds_granules(items, ranges, ranges.len() as int, span),
    ensures
        touched(ranges, span).len() == items.len(),
{
    items.unique_seq_to_set();
    assert(touched(ranges, span) =~= items.to_set()) by {
        assert forall|g: u64| #[trigger] touched(ranges, span).contains(g) <==> items.to_set().contains(
            g,
        ) by {
            assert(items.contains(g) <==> met(ranges, ranges.len() as int, g, span));
        }
    }
}

proof fn lemma_overflow_counted(w: Seq<u64>, ranges: Seq<(u64, u64)>, span: int)
    requires
        overflows(w, ranges, span),
    ensures
        touched(ranges, span).len() > MAX_ADDRESS_SPACE_PAGE_TABLE_FRAMES,
{
    w.unique_seq_to_set();
    lemma_touched_finite(ranges, span);
    assert(w.to_set().subset_of(touched(ranges, span)));
    vstd::set_lib::lemma_len_subset(w.to_set(), touched(ranges, span));
}

/// The directory of a table that a range meets is met too.
proof fn lemma_directory_of(range: (u64, u64), t: u64)
    requires
        meets(range, t, PAGE_TABLE_SPAN as int),
    ensures
        meets(
            range,
            floor_to(t as int, PAGE_DIRECTORY_SPAN as int) as u64,
            PAGE_DIRECTORY_SPAN as int,
        ),
{
    assert(t % 0x4000_0000 <= 0x3fe0_0000) by {
        assert((t % 0x4000_0000) % 0x20_0000 == 0);
    }
    assert((t - t % 0x4000_0000) % 0x4000_0000 == 0);
}

/// A directory that a range meets holds a table that the range meets.
proof fn lemma_table_of(range: (u64, u64), d: u64) -> (t: u64)
    requires
        meets(range, d, PAGE_DIRECTORY_SPAN as int),
    ensures
        meets(range, t, PAGE_TABLE_SPAN as int),
        floor_to(t as int, PAGE_DIRECTORY_SPAN as int) == d,
{
    let x = if range.0 > d {
        range.0
    } else {
        d
    };
    let t = (x - x % 0x20_0000) as u64;
    assert(t % 0x20_0000 == 0);
    assert(d % 0x20_0000 == 0);
    assert(d <= t < d + 0x4000_0000);
    assert(t - t % 0x4000_0000 == d);
    t
}

/// No more directories are needed than tables: every directory that is met holds a table that is.
proof fn lemma_directories_bounded(ranges: Seq<(u64, u64)>)
    ensures
        touched(ranges, PAGE_DIRECTORY_SPAN as int).len() <= touched(
            ranges,
            PAGE_TABLE_SPAN as int,
        ).len(),
{
    let tables = touched(ranges, PAGE_TABLE_SPAN as int);
    let directories = touched(ranges, PAGE_DIRECTORY_SPAN as int);
    let f = |t: u64| floor_to(t as int, PAGE_DIRECTORY_SPAN as int) as u64;
    lemma_touched_finite(ranges, PAGE_TABLE_SPAN as int);
    let n = ranges.len() as int;
    assert forall|t: u64| #[trigger] tables.contains(t) implies directories.contains(f(t)) by {
        let i = choose|i: int|
            0 <= i < n && meets(#[trigger] ranges[i], t, PAGE_TABLE_SPAN as int);
        lemma_directory_of(ranges[i], t);
        assert(met(ranges, n, f(t), PAGE_DIRECTORY_SPAN as int));
    }
    assert forall|d: u64| #[trigger] directories.contains(d) implies tables.map(f).contains(d) by {
        let i = choose|i: int|
            0 <= i < n && meets(#[trigger] ranges[i], d, PAGE_DIRECTORY_SPAN as int);
        let t = lemma_table_of(ranges[i], d);
        assert(met(ranges, n, t, PAGE_TABLE_SPAN as int));
        assert(tables.contains(t));
        assert(f(t) == d);
    }
    assert(tables.map(f) =~= directories);
    vstd::set_lib::lemma_map_size_bound(tables, directories, f);
}

/// The demand of all ranges is a root, one level-3 table, and one table for each distinct granule of
/// either size that some range meets, where the small granules are within the budget; otherwise it is
/// refused.
pub proof fn law_demand_counts_granules(ranges: Seq<(u64, u64)>)
    ensures
        demand(ranges) == granule_demand(ranges),
{
    let none = Seq::<u64>::empty();
    let n = ranges.len() as int;
    lemma_tables_of(ranges, none, none, 0);
    lemma_directories_bounded(ranges);
    match tables_of(ranges, none, none, 0) {
        Some((t, d)) => {
            lemma_counted(t, ranges, PAGE_TABLE_SPAN as int);
            lemma_counted(d, ranges, PAGE_DIRECTORY_SPAN as int);
        },
        None => {
            if exists|w: Seq<u64>| overflows(w, ranges, PAGE_TABLE_SPAN as int) {
                let w = choose|w: Seq<u64>| overflows(w, ranges, PAGE_TABLE_SPAN as int);
                lemma_overflow_counted(w, ranges, PAGE_TABLE_SPAN as int);
            } else {
                let w = choose|w: Seq<u64>| overflows(w, ranges, PAGE_DIRECTORY_SPAN as int);
                lemma_overflow_counted(w, ranges, PAGE_DIRECTORY_SPAN as int);
            }
        },
    }
}

proof fn lemma_touched_by_addresses(
    a: Seq<(u64, u64)>,
    b: Seq<(u64, u64)>,
    granule: u64,
    span: int,
)
    requires
        span > 0,
        forall|address: u64| #[trigger] covered(a, address) ==> covered(b, address),
        met(a, a.len() as int, granule, span),
    ensures
        met(b, b.len() as int, granule, span),
{
    let i = choose|i: int| 0 <= i < a.len() && meets(#[trigger] a[i], granule, span);
    let address = if a[i].0 > granule {
        a[i].0
    } else {
        granule
    };
    assert(a[i].0 <= address < a[i].1);
    assert(covered(a, address));
    let j = choose|j: int| 0 <= j < b.len() && (#[trigger] b[j]).0 <= address < b[j].1;
    assert(meets(b[j], granule, span));
}

/// The demand depends on the addresses that the ranges cover and on nothing else: neither their order
/// nor repeating, splitting or joining them changes it.
pub proof fn law_demand_depends_on_addresses(a: Seq<(u64, u64)>, b: Seq<(u64, u64)>)
    requires
        forall|address: u64| #[trigger] covered(a, address) <==> covered(b, address),
    ensures
        demand(a) == demand(b),
{
    law_demand_counts_granules(a);
    law_demand_counts_granules(b);
    assert forall|span: int| span > 0 implies #[trigger] touched(a, span) == touched(b, span) by {
        assert forall|g: u64| met(a, a.len() as int, g, span) <==> #[trigger] met(
            b,
            b.len() as int,
            g,
            span,
        ) by {
            if met(a, a.len() as int, g, span) {
                lemma_touched_by_addresses(a, b, g, span);
            }
            if met(b, b.len() as int, g, span) {
                lemma_touched_by_addresses(b, a, g, span);
            }
        }
        assert(touched(a, span) =~= touched(b, span));
    }
}

} // verus!
