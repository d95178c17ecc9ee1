//! How status pages take turns when the ticks come on time.

use vstd::arithmetic::div_mod::{lemma_fundamental_div_mod, lemma_fundamental_div_mod_converse};
use vstd::arithmetic::mul::{lemma_mul_inequality, lemma_mul_is_distributive_sub_other_way};
use vstd::prelude::*;

use crate::clock::elapsed;
use crate::runtime::RunStatusPageView;
use crate::scheduler::{is_most_overdue, next_page, overdue, page_is_due, poll_of};

verus! {

/// The instant of the tick number `k`, with `step` seconds between ticks.
pub open spec fn tick_at(start: (int, int), step: int, k: int) -> (int, int) {
    (start.0 + k * step, start.1)
}

/// When each page was last polled before the tick number `k`.
pub open spec fn polls_before(
    pages: Seq<RunStatusPageView>,
    start: (int, int),
    step: int,
    k: int,
) -> Map<Seq<char>, (int, int)>
    decreases k,
{
    if k <= 0 {
        Map::empty()
    } else {
        let before = polls_before(pages, start, step, k - 1);
        let now = tick_at(start, step, k - 1);
        match next_page(pages, before, now) {
            Some(i) => before.insert(pages[i].name, now),
            None => before,
        }
    }
}

/// How many ticks it takes until `interval` seconds have passed.
pub open spec fn period(interval: int, step: int) -> int {
    (interval + step - 1) / step
}

/// Pages of distinct names that are all polled every `interval` seconds, no more of
/// them than there are ticks in that time.
pub open spec fn within_capacity(pages: Seq<RunStatusPageView>, interval: int, step: int) -> bool {
    &&& step > 0
    &&& interval > 0
    &&& pages.len() * step <= interval
    &&& forall|i: int|
        0 <= i < pages.len() ==> (#[trigger] pages[i]).poll_interval.secs == interval
    &&& forall|i: int, j: int|
        0 <= i < j < pages.len() ==> (#[trigger] pages[i]).name != (#[trigger] pages[j]).name
}

/// The tick before `k` at which the page at `i` last had its turn.
spec fn last_turn(i: int, m: int, k: int) -> int {
    k - 1 - (k - 1 - i) % m
}

proof fn lemma_period(d: int, interval: int, step: int)
    requires
        step > 0,
        interval > 0,
    ensures
        d * step >= interval <==> d >= period(interval, step),
        period(interval, step) > 0,
{
    let x = interval + step - 1;
    let m = period(interval, step);
    lemma_fundamental_div_mod(x, step);
    assert(m * step == step * (x / step)) by (nonlinear_arith)
        requires
            m == x / step,
    ;
    assert((m - 1) * step == m * step - step) by (nonlinear_arith);
    if d >= m {
        lemma_mul_inequality(m, d, step);
    } else {
        lemma_mul_inequality(d, m - 1, step);
    }
    if m <= 0 {
        assert(m * step <= 0) by (nonlinear_arith)
            requires
                m <= 0,
                step > 0,
        ;
    }
}

proof fn lemma_elapsed_ticks(start: (int, int), step: int, j: int, k: int)
    requires
        step > 0,
        j <= k,
    ensures
        elapsed(tick_at(start, step, k), tick_at(start, step, j)) == (k - j) * step,
        (k - j) * step >= 0,
{
    lemma_mul_is_distributive_sub_other_way(step, k, j);
    assert((k - j) * step >= 0) by (nonlinear_arith)
        requires
            step > 0,
            j <= k,
    ;
}

/// One step further, the remainder is one more, or back at zero.
proof fn lemma_next_remainder(x: int, m: int)
    requires
        m > 0,
        x % m != 0,
    ensures
        (x - 1) % m == x % m - 1,
{
    lemma_fundamental_div_mod(x, m);
    assert((x / m) * m == m * (x / m)) by (nonlinear_arith);
    lemma_fundamental_div_mod_converse(x - 1, m, x / m, x % m - 1);
}

proof fn lemma_turn(k: int, i: int, m: int)
    requires
        0 <= i < m,
    ensures
        k % m == i <==> (k - i) % m == 0,
{
    lemma_fundamental_div_mod(k, m);
    lemma_fundamental_div_mod(k - i, m);
    assert((k / m) * m == m * (k / m)) by (nonlinear_arith);
    assert(((k - i) / m) * m == m * ((k - i) / m)) by (nonlinear_arith);
    if k % m == i {
        lemma_fundamental_div_mod_converse(k - i, m, k / m, 0);
    }
    if (k - i) % m == 0 {
        lemma_fundamental_div_mod_converse(k, m, (k - i) / m, i);
    }
}

/// Each page has been polled at its last turn.
spec fn in_rotation(
    pages: Seq<RunStatusPageView>,
    start: (int, int),
    step: int,
    m: int,
    k: int,
    i: int,
) -> bool {
    poll_of(polls_before(pages, start, step, k), pages[i].name) == if i < k {
        Some(tick_at(start, step, last_turn(i, m, k)))
    } else {
        None
    }
}

proof fn lemma_due_at_its_turn(
    pages: Seq<RunStatusPageView>,
    interval: int,
    start: (int, int),
    step: int,
    k: int,
    i: int,
)
    requires
        within_capacity(pages, interval, step),
        0 <= i < pages.len(),
        k >= 0,
        in_rotation(pages, start, step, period(interval, step), k, i),
    ensures
        page_is_due(
            pages,
            polls_before(pages, start, step, k),
            tick_at(start, step, k),
            i,
        ) == (i >= k || k % period(interval, step) == i),
{
    let m = period(interval, step);
    let n = pages.len() as int;
    lemma_period(n - 1, interval, step);
    assert((n - 1) * step < n * step) by (nonlinear_arith)
        requires
            step > 0,
    ;
    assert(n <= m);
    assert(pages[i].poll_interval.secs == interval);
    lemma_turn(k, i, m);
    if i < k {
        let j = last_turn(i, m, k);
        let r = (k - 1 - i) % m;
        assert(0 <= r < m) by (nonlinear_arith)
            requires
                m > 0,
                r == (k - 1 - i) % m,
        ;
        lemma_elapsed_ticks(start, step, j, k);
        lemma_period(k - j, interval, step);
        if (k - i) % m != 0 {
            lemma_next_remainder(k - i, m);
            assert((k - i) % m < m) by (nonlinear_arith)
                requires
                    m > 0,
            ;
        } else {
            lemma_fundamental_div_mod(k - i, m);
            let q = (k - i) / m;
            assert((q - 1) * m == q * m - m && q * m == m * q) by (nonlinear_arith);
            lemma_fundamental_div_mod_converse(k - 1 - i, m, q - 1, m - 1);
        }
    }
}

proof fn lemma_page_of_tick(
    pages: Seq<RunStatusPageView>,
    interval: int,
    start: (int, int),
    step: int,
    k: int,
)
    requires
        within_capacity(pages, interval, step),
        k >= 0,
        forall|i: int|
            0 <= i < pages.len() ==> #[trigger] in_rotation(
                pages,
                start,
                step,
                period(interval, step),
                k,
                i,
            ),
    ensures
        next_page(pages, polls_before(pages, start, step, k), tick_at(start, step, k)) == if k
            % period(interval, step) < pages.len() {
            Some(k % period(interval, step))
        } else {
            None
        },
{
    let m = period(interval, step);
    let n = pages.len() as int;
    let polls = polls_before(pages, start, step, k);
    let now = tick_at(start, step, k);
    let turn = k % m;
    lemma_period(n - 1, interval, step);
    assert((n - 1) * step < n * step) by (nonlinear_arith)
        requires
            step > 0,
    ;
    assert(0 <= turn < m) by (nonlinear_arith)
        requires
            m > 0,
            turn == k % m,
    ;
    assert forall|i: int| #[trigger] page_is_due(pages, polls, now, i) == (0 <= i < n && (i >= k
        || turn == i)) by {
        if 0 <= i < n {
            assert(in_rotation(pages, start, step, m, k, i));
            lemma_due_at_its_turn(pages, interval, start, step, k, i);
        }
    }
    if k < n {
        lemma_fundamental_div_mod_converse(k, m, 0, k);
        assert(turn == k);
    }
    if turn < n {
        assert(page_is_due(pages, polls, now, turn));
        assert forall|j: int| j != turn && #[trigger] page_is_due(pages, polls, now, j) implies j
            > turn && overdue(poll_of(polls, pages[j].name), now) == overdue(
            poll_of(polls, pages[turn].name),
            now,
        ) by {
            assert(in_rotation(pages, start, step, m, k, j));
            assert(in_rotation(pages, start, step, m, k, turn));
        }
        assert(is_most_overdue(pages, polls, now, turn));
        let chosen = choose|i: int| is_most_overdue(pages, polls, now, i);
        assert(is_most_overdue(pages, polls, now, chosen));
        if chosen != turn {
            assert(page_is_due(pages, polls, now, chosen));
        }
    }
}

proof fn lemma_rotation(
    pages: Seq<RunStatusPageView>,
    interval: int,
    start: (int, int),
    step: int,
    k: int,
)
    requires
        within_capacity(pages, interval, step),
        k >= 0,
    ensures
        forall|i: int|
            0 <= i < pages.len() ==> #[trigger] in_rotation(
                pages,
                start,
                step,
                period(interval, step),
                k,
                i,
            ),
    decreases k,
{
    let m = period(interval, step);
    let n = pages.len() as int;
    lemma_period(n - 1, interval, step);
    assert((n - 1) * step < n * step) by (nonlinear_arith)
        requires
            step > 0,
    ;
    if k > 0 {
        let before = polls_before(pages, start, step, k - 1);
        let polls = polls_before(pages, start, step, k);
        let now = tick_at(start, step, k - 1);
        let turn = (k - 1) % m;
        assert(0 <= turn < m) by (nonlinear_arith)
            requires
                m > 0,
                turn == (k - 1) % m,
        ;
        lemma_rotation(pages, interval, start, step, k - 1);
        lemma_page_of_tick(pages, interval, start, step, k - 1);
        assert forall|i: int| 0 <= i < n implies #[trigger] in_rotation(
            pages,
            start,
            step,
            m,
            k,
            i,
        ) by {
            assert(in_rotation(pages, start, step, m, k - 1, i));
            lemma_turn(k - 1, i, m);
            if turn < n && turn != i {
                assert(pages[turn].name != pages[i].name) by {
                    if turn < i {
                        assert(pages[turn].name != pages[i].name);
                    } else {
                        assert(pages[i].name != pages[turn].name);
                    }
                }
            }
            if i >= k - 1 {
                lemma_fundamental_div_mod_converse(k - 1, m, 0, k - 1);
            } else if turn != i {
                lemma_next_remainder(k - 1 - i, m);
            }
        }
    }
}

/// With no more pages than there are ticks in their interval, and ticks that come on
/// time, every page keeps its nominal interval. The pages take turns: the first ticks
/// poll one each, in order, and from then on each page is polled at the very tick at
/// which its interval has passed, so none that is due is ever left waiting.
pub proof fn law_pages_within_capacity_keep_their_interval(
    pages: Seq<RunStatusPageView>,
    interval: int,
    start: (int, int),
    step: int,
    k: int,
)
    requires
        within_capacity(pages, interval, step),
        k >= 0,
    ensures
        ({
            let polls = polls_before(pages, start, step, k);
            let now = tick_at(start, step, k);
            let turn = k % period(interval, step);
            &&& next_page(pages, polls, now) == if turn < pages.len() {
                Some(turn)
            } else {
                None
            }
            &&& k >= pages.len() ==> forall|i: int| #[trigger]
                page_is_due(pages, polls, now, i) ==> i == turn
        }),
        pages.len() <= period(interval, step),
        (period(interval, step) - 1) * step < interval <= period(interval, step) * step,
{
    let m = period(interval, step);
    let n = pages.len() as int;
    lemma_rotation(pages, interval, start, step, k);
    lemma_page_of_tick(pages, interval, start, step, k);
    lemma_period(n - 1, interval, step);
    lemma_period(m - 1, interval, step);
    lemma_period(m, interval, step);
    assert((n - 1) * step < n * step) by (nonlinear_arith)
        requires
            step > 0,
    ;
    let polls = polls_before(pages, start, step, k);
    let now = tick_at(start, step, k);
    assert forall|i: int| k >= n && #[trigger] page_is_due(pages, polls, now, i) implies i == k
        % m by {
        assert(in_rotation(pages, start, step, m, k, i));
        lemma_due_at_its_turn(pages, interval, start, step, k, i);
    }
}

} // verus!
