//! How a count of postings becomes the list of pages to ask for.
use vstd::prelude::*;

use crate::job::text_with_number;
use crate::text::{decimal, views};

verus! {

/// The number of pages of `size` postings that `count` postings fill: the
/// count divided by the size, rounded up.
pub open spec fn page_count(count: nat, size: nat) -> nat
    recommends
        size > 0,
{
    ((count + size - 1) / size as int) as nat
}

/// The first posting of each page: `0, step, 2 * step, ...`, one per page.
pub open spec fn start_rows_spec(count: nat, step: nat) -> Seq<u64> {
    Seq::new(page_count(count, step), |i: int| (i * step) as u64)
}

/// The page numbers `1, 2, ..., page_count(count, size)`.
pub open spec fn page_numbers_spec(count: nat, size: nat) -> Seq<u64> {
    Seq::new(page_count(count, size), |i: int| (i + 1) as u64)
}

/// `k` pages are enough for `count` postings and `k - 1` are not exactly when
/// `k` is the rounded-up quotient.
pub proof fn lemma_page_count(count: nat, size: nat, k: nat)
    requires
        size > 0,
        k * size >= count,
        k == 0 || (k - 1) * size < count,
    ensures
        k == page_count(count, size),
{
    let n = (count + size - 1) as int;
    if k == 0 {
        assert(count == 0) by (nonlinear_arith)
            requires
                k * size >= count,
                k == 0,
        ;
        assert(0 <= n < size as int);
        assert(n / (size as int) == 0) by (nonlinear_arith)
            requires
                0 <= n < size as int,
        ;
    } else {
        assert(k * size <= n < k * size + size) by (nonlinear_arith)
            requires
                k * size >= count,
                (k - 1) * size < count,
                n == count + size - 1,
                k > 0,
        ;
        vstd::arithmetic::div_mod::lemma_fundamental_div_mod_converse(n, size as int, k as int, n - k * size);
    }
}

/// `i` is below the page count exactly when `i` pages of `size` leave some
/// of the `count` postings over.
pub proof fn lemma_below_page_count(count: nat, size: nat, i: nat)
    requires
        size > 0,
    ensures
        i < page_count(count, size) <==> i * size < count,
{
    let n = (count + size - 1) as int;
    let d = size as int;
    let q = n / d;
    vstd::arithmetic::div_mod::lemma_fundamental_div_mod(n, d);
    vstd::arithmetic::div_mod::lemma_mod_pos_bound(n, d);
    let r = n % d;
    assert(n == d * q + r);
    if i < q {
        assert(i * d + d <= q * d) by (nonlinear_arith)
            requires
                i < q,
                d > 0,
        ;
        assert(q * d == d * q) by (nonlinear_arith);
    }
    if i * size < count {
        if i >= q {
            assert(i * d >= q * d) by (nonlinear_arith)
                requires
                    i >= q,
                    d > 0,
            ;
            assert(q * d == d * q) by (nonlinear_arith);
        }
    }
}

/// Every posting below `count` is on exactly the page whose start row is
/// the last one at or before it; every start row is below `count`.
pub proof fn lemma_start_rows_cover(count: nat, step: nat)
    requires
        step > 0,
        count <= u64::MAX,
    ensures
        forall|i: int|
            0 <= i < start_rows_spec(count, step).len() ==> #[trigger] start_rows_spec(count, step)[i]
                == i * step && start_rows_spec(count, step)[i] < count,
        forall|k: nat|
            k < count ==> 0 <= #[trigger] (k / step) < start_rows_spec(count, step).len()
                && start_rows_spec(count, step)[(k / step) as int] <= k < start_rows_spec(
                count,
                step,
            )[(k / step) as int] + step,
{
    let rows = start_rows_spec(count, step);
    assert forall|i: int| 0 <= i < rows.len() implies #[trigger] rows[i] == i * step && rows[i]
        < count by {
        lemma_below_page_count(count, step, i as nat);
    }
    assert forall|k: nat| k < count implies 0 <= #[trigger] (k / step) < rows.len() && rows[(k
        / step) as int] <= k < rows[(k / step) as int] + step by {
        let q = (k / step) as int;
        vstd::arithmetic::div_mod::lemma_fundamental_div_mod(k as int, step as int);
        vstd::arithmetic::div_mod::lemma_mod_pos_bound(k as int, step as int);
        assert(q * step == step * q) by (nonlinear_arith);
        lemma_below_page_count(count, step, q as nat);
    }
}

/// Page `p` is asked for exactly when `1 <= p` and the pages before it hold
/// fewer than `count` postings (the loop test `(p - 1) * size < count`).
pub proof fn lemma_page_numbers_members(count: nat, size: nat, p: nat)
    requires
        size > 0,
        count <= u64::MAX,
        p <= u64::MAX,
    ensures
        page_numbers_spec(count, size).contains(p as u64) <==> (1 <= p && (p - 1) * size < count),
{
    let pages = page_numbers_spec(count, size);
    if 1 <= p && (p - 1) * size < count {
        lemma_below_page_count(count, size, (p - 1) as nat);
        assert(pages[p - 1] == p as u64);
    }
    if pages.contains(p as u64) {
        let i = choose|i: int| 0 <= i < pages.len() && pages[i] == p as u64;
        lemma_below_page_count(count, size, i as nat);
        assert(page_count(count, size) <= count) by (nonlinear_arith)
            requires
                size > 0,
                page_count(count, size) == (count + size - 1) / size as int,
        ;
    }
}

/// The rounded-up page count, times the page size, lies between `count`
/// and `count + size - 1`.
pub proof fn lemma_page_count_bounds(count: nat, size: nat)
    requires
        size > 0,
    ensures
        count <= page_count(count, size) * size <= count + size - 1,
{
    let n = (count + size - 1) as int;
    let d = size as int;
    let q = n / d;
    vstd::arithmetic::div_mod::lemma_fundamental_div_mod(n, d);
    vstd::arithmetic::div_mod::lemma_mod_pos_bound(n, d);
    assert(q * d == d * q) by (nonlinear_arith);
    assert(q >= 0) by (nonlinear_arith)
        requires
            n >= 0,
            d > 0,
            q == n / d,
    ;
}

/// The first posting of each page: `start` goes `0, step, 2 * step, ...`
/// while it is below `count` (the readers' `while startrow < count` loop,
/// whose last addition gives `page_count * step`).
pub fn start_rows(count: u64, step: u64) -> (r: Vec<u64>)
    requires
        step > 0,
        page_count(count as nat, step as nat) * step <= u64::MAX,
    ensures
        r@ == start_rows_spec(count as nat, step as nat),
        r@.len() == page_count(count as nat, step as nat),
{
    let ghost pc = page_count(count as nat, step as nat);
    let mut r: Vec<u64> = Vec::new();
    let mut start: u64 = 0;
    assert(0 * step == 0) by (nonlinear_arith);
    while start < count
        invariant
            step > 0,
            pc == page_count(count as nat, step as nat),
            pc * step <= u64::MAX,
            start == r@.len() * step,
            r@.len() == 0 || (r@.len() - 1) * step < count,
            r@.len() <= pc,
            forall|j: int| 0 <= j < r@.len() ==> r@[j] == j * step,
        decreases pc - r@.len(),
    {
        proof {
            lemma_below_page_count(count as nat, step as nat, r@.len());
            assert((r@.len() + 1) * step <= pc * step) by (nonlinear_arith)
                requires
                    r@.len() + 1 <= pc,
                    step > 0,
            ;
        }
        r.push(start);
        assert(r@.len() * step == start + step) by (nonlinear_arith)
            requires
                start == (r@.len() - 1) * step,
                r@.len() >= 1,
        ;
        start = start + step;
    }
    proof {
        lemma_page_count(count as nat, step as nat, r@.len());
        assert(r@ =~= start_rows_spec(count as nat, step as nat));
    }
    r
}

/// The page numbers `1 ..= (count + size - 1) / size`, that is one per page
/// of `size` postings that `count` postings fill (the readers' page loops).
pub fn page_numbers(count: u64, size: u64) -> (r: Vec<u64>)
    requires
        size > 0,
    ensures
        r@ == page_numbers_spec(count as nat, size as nat),
{
    let q: u64 = count / size;
    let rem: u64 = count % size;
    proof {
        vstd::arithmetic::div_mod::lemma_fundamental_div_mod(count as int, size as int);
        assert(q * size == size * q) by (nonlinear_arith);
        assert(q <= count) by (nonlinear_arith)
            requires
                size > 0,
                q == count / size,
        ;
    }
    let total: u64 = if rem == 0 {
        q
    } else {
        assert(q < count) by (nonlinear_arith)
            requires
                size > 0,
                q * size + rem == count,
                rem > 0,
                q >= 0,
        ;
        q + 1
    };
    proof {
        if rem == 0 {
            if total > 0 {
                assert((total - 1) * size == total * size - size) by (nonlinear_arith);
            }
        } else {
            assert(total * size == q * size + size) by (nonlinear_arith)
                requires
                    total == q + 1,
            ;
        }
        lemma_page_count(count as nat, size as nat, total as nat);
    }
    let mut r: Vec<u64> = Vec::new();
    let mut i: u64 = 0;
    while i < total
        invariant
            i <= total,
            total == page_count(count as nat, size as nat),
            r@.len() == i,
            forall|j: int| 0 <= j < r@.len() ==> r@[j] == j + 1,
        decreases total - i,
    {
        r.push(i + 1);
        i = i + 1;
    }
    assert(r@ =~= page_numbers_spec(count as nat, size as nat));
    r
}

/// Each number of `numbers` written between `prefix` and `suffix`.
pub open spec fn numbered_texts(numbers: Seq<u64>, prefix: Seq<char>, suffix: Seq<char>) -> Seq<Seq<char>> {
    numbers.map_values(|n: u64| prefix + decimal(n as nat) + suffix)
}

/// Each number of `numbers` written between `prefix` and `suffix` (the
/// readers' `format!` of page addresses).
pub fn numbered_urls(numbers: &Vec<u64>, prefix: &str, suffix: &str) -> (r: Vec<String>)
    ensures
        views(r@) == numbered_texts(numbers@, prefix@, suffix@),
{
    let mut urls: Vec<String> = Vec::new();
    let mut i: usize = 0;
    while i < numbers.len()
        invariant
            i <= numbers@.len(),
            views(urls@) =~= numbered_texts(numbers@, prefix@, suffix@).take(i as int),
        decreases numbers.len() - i,
    {
        let ghost before = urls@;
        let url = text_with_number(prefix, numbers[i], suffix);
        urls.push(url);
        assert(views(urls@) =~= views(before).push(url@));
        assert(views(urls@) =~= numbered_texts(numbers@, prefix@, suffix@).take(i + 1));
        i = i + 1;
    }
    assert(numbered_texts(numbers@, prefix@, suffix@).take(numbers@.len() as int) =~= numbered_texts(
        numbers@,
        prefix@,
        suffix@,
    ));
    urls
}

} // verus!
