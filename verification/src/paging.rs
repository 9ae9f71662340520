//! The pagination engine: pure arithmetic that slices an ordered listing of
//! `total_count` items into pages of `page_size` items.

use vstd::prelude::*;

verus! {

/// How a page request resolves: the clamped page number, the offset and
/// limit of the slice to fetch, and how many pages exist in all.
#[derive(Debug)]
pub struct PageInfo {
    pub page_number: u64,
    pub offset: u64,
    pub limit: u64,
    pub page_count: u64,
}

/// How many pages `total` items fill at `size` items per page: the rounded-up
/// quotient, except that no items still fill one (empty) page.
pub open spec fn spec_page_count(total: int, size: int) -> int {
    if total == 0 {
        1
    } else {
        (total - 1) / size + 1
    }
}

/// The clamp of a requested page number to `[1, count]`; a request of `0`
/// (no navigation context) means the first page.
pub open spec fn spec_clamp_page(page: int, count: int) -> int {
    if page == 0 {
        1
    } else if page > count {
        count
    } else {
        page
    }
}

/// Resolves a page request over `total_count` items: the page number is
/// clamped to `[1, page_count]` (`0` meaning the first page), the offset is
/// `(page_number - 1) * page_size`, the limit is `page_size`, and
/// `page_count` pages exist in all.
pub fn page(page_number: u64, page_size: u64, total_count: u64) -> (r: PageInfo)
    requires
        1 <= page_size,
    ensures
        r.page_count == spec_page_count(total_count as int, page_size as int),
        r.page_number == spec_clamp_page(page_number as int, r.page_count as int),
        1 <= r.page_number <= r.page_count,
        r.offset == (r.page_number - 1) * page_size,
        r.limit == page_size,
        r.offset <= total_count,
{
    let page_count: u64 = if total_count == 0 {
        1
    } else {
        proof {
            vstd::arithmetic::div_mod::lemma_div_is_ordered_by_denominator(
                total_count - 1,
                1,
                page_size as int,
            );
            vstd::arithmetic::div_mod::lemma_div_pos_is_pos(total_count - 1, page_size as int);
        }
        (total_count - 1) / page_size + 1
    };
    let clamped: u64 = if page_number == 0 {
        1
    } else if page_number > page_count {
        page_count
    } else {
        page_number
    };
    proof {
        lemma_page_arith(total_count as int, page_size as int, clamped as int);
    }
    let offset: u64 = (clamped - 1) * page_size;
    PageInfo { page_number: clamped, offset, limit: page_size, page_count }
}

/// The offset of any existing page lies within the item count: with
/// `1 <= p <= spec_page_count(total, size)`, `(p - 1) * size <= total`.
proof fn lemma_page_arith(total: int, size: int, p: int)
    requires
        1 <= size,
        0 <= total,
        1 <= p <= spec_page_count(total, size),
    ensures
        (p - 1) * size <= total,
{
    let count = spec_page_count(total, size);
    assert((p - 1) * size <= (count - 1) * size) by {
        vstd::arithmetic::mul::lemma_mul_inequality(p - 1, count - 1, size);
    }
    if total > 0 {
        assert(total - 1 == size * ((total - 1) / size) + (total - 1) % size) by {
            vstd::arithmetic::div_mod::lemma_fundamental_div_mod(total - 1, size);
        }
        assert(0 <= (total - 1) % size < size) by {
            vstd::arithmetic::div_mod::lemma_mod_division_less_than_divisor(total - 1, size);
        }
        assert((count - 1) * size == size * ((total - 1) / size)) by {
            vstd::arithmetic::mul::lemma_mul_is_commutative(count - 1, size);
        }
        assert((count - 1) * size <= total - 1);
        assert((p - 1) * size <= total);
    } else {
        assert(count == 1);
        assert(p == 1);
        assert((p - 1) * size == 0) by {
            vstd::arithmetic::mul::lemma_mul_basics(size);
        }
    }
}

} // verus!
