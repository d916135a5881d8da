//! Column width resolution: minimum widths from layouts and headers, then the
//! spare table width handed out among expandable columns.

use crate::padstr::str_views;
use crate::Layout;
use vstd::prelude::*;

verus! {

/// The width a column needs before any spare width is handed out: a fixed
/// width as given, otherwise its header and the padding on both sides (0
/// without a header).
pub open spec fn min_width(l: Layout, header: Option<Seq<char>>, padding: nat) -> nat {
    match l {
        Layout::Fixed(n) => n as nat,
        _ => match header {
            Some(h) => h.len() + 2 * padding,
            None => 0,
        },
    }
}

/// The header of column `i`, where there is one.
pub open spec fn header_at(hs: Seq<Seq<char>>, i: int) -> Option<Seq<char>> {
    if 0 <= i < hs.len() {
        Some(hs[i])
    } else {
        None
    }
}

/// The minimum width of each column.
pub open spec fn min_widths(ls: Seq<Layout>, hs: Seq<Seq<char>>, padding: nat) -> Seq<nat> {
    Seq::new(ls.len(), |i: int| min_width(ls[i], header_at(hs, i), padding))
}

pub open spec fn sum(ws: Seq<nat>) -> nat
    decreases ws.len(),
{
    if ws.len() == 0 {
        0
    } else {
        sum(ws.drop_last()) + ws.last()
    }
}

/// The narrowest table: every column at its minimum, and one divider before,
/// between and after the columns.
pub open spec fn min_table_width(ls: Seq<Layout>, hs: Seq<Seq<char>>, padding: nat) -> nat {
    sum(min_widths(ls, hs, padding)) + ls.len() + 1
}

/// The width left over for expandable columns (none when the target is too
/// narrow).
pub open spec fn spare_width(ls: Seq<Layout>, hs: Seq<Seq<char>>, padding: nat, target: nat) -> nat {
    let m = min_table_width(ls, hs, padding);
    if target > m {
        (target - m) as nat
    } else {
        0
    }
}

/// The number of expandable columns at index `i` or later.
pub open spec fn expandable_from(ls: Seq<Layout>, i: int) -> nat
    decreases ls.len() - i,
{
    if i < 0 || i >= ls.len() {
        0
    } else {
        (if ls[i] is Expandable {
            1nat
        } else {
            0nat
        }) + expandable_from(ls, i + 1)
    }
}

/// `w` grown by `c`, or `max` where that would pass it.
pub open spec fn compensated(w: nat, max: nat, c: nat) -> nat {
    if w + c > max {
        max
    } else {
        w + c
    }
}

/// Hands out `rem` among the expandable columns from index `i` on, in order:
/// each is offered the remainder divided by the number of expandable columns
/// left, takes what fits under its maximum, and what it takes leaves the
/// remainder. Gives the widths and what was not handed out.
pub open spec fn distribute(ls: Seq<Layout>, ws: Seq<nat>, i: int, rem: nat) -> (Seq<nat>, nat)
    decreases ls.len() - i,
{
    if i < 0 || i >= ls.len() {
        (ws, rem)
    } else {
        match ls[i] {
            Layout::Expandable(max) => {
                let nw = compensated(ws[i], max as nat, rem / expandable_from(ls, i));
                let applied: nat = if nw > ws[i] {
                    (nw - ws[i]) as nat
                } else {
                    0
                };
                distribute(ls, ws.update(i, ws[i] + applied), i + 1, (rem - applied) as nat)
            },
            _ => distribute(ls, ws, i + 1, rem),
        }
    }
}

/// The final width of each column for a table of width `target`.
pub open spec fn resolved_widths(
    ls: Seq<Layout>,
    hs: Seq<Seq<char>>,
    padding: nat,
    target: nat,
) -> Seq<nat> {
    distribute(ls, min_widths(ls, hs, padding), 0, spare_width(ls, hs, padding, target)).0
}

/// The spare width that no expandable column could take.
pub open spec fn undistributed(
    ls: Seq<Layout>,
    hs: Seq<Seq<char>>,
    padding: nat,
    target: nat,
) -> nat {
    distribute(ls, min_widths(ls, hs, padding), 0, spare_width(ls, hs, padding, target)).1
}

pub open spec fn usize_views(v: Seq<usize>) -> Seq<nat> {
    Seq::new(v.len(), |i: int| v[i] as nat)
}

pub proof fn lemma_sum_prefix(ws: Seq<nat>, i: int)
    requires
        0 <= i < ws.len(),
    ensures
        sum(ws.take(i + 1)) == sum(ws.take(i)) + ws[i],
        sum(ws.take(i + 1)) <= sum(ws),
    decreases ws.len() - i,
{
    assert(ws.take(i + 1).drop_last() =~= ws.take(i));
    if i + 1 == ws.len() {
        assert(ws.take(i + 1) =~= ws);
    } else {
        lemma_sum_prefix(ws, i + 1);
    }
}

pub proof fn lemma_sum_update(ws: Seq<nat>, i: int, x: nat)
    requires
        0 <= i < ws.len(),
    ensures
        sum(ws.update(i, x)) + ws[i] == sum(ws) + x,
    decreases ws.len(),
{
    if i == ws.len() - 1 {
        assert(ws.update(i, x).drop_last() =~= ws.drop_last());
    } else {
        assert(ws.update(i, x).drop_last() =~= ws.drop_last().update(i, x));
        lemma_sum_update(ws.drop_last(), i, x);
    }
}

pub proof fn lemma_expandable_from(ls: Seq<Layout>, i: int)
    requires
        0 <= i < ls.len(),
        ls[i] is Expandable,
    ensures
        expandable_from(ls, i) >= 1,
{
}

/// What the distribution keeps: the lengths, the total of widths and
/// remainder, the columns before `i` and those that are not expandable; the
/// others only grow, and one that started within its maximum stays within it.
pub proof fn lemma_distribute(ls: Seq<Layout>, ws: Seq<nat>, i: int, rem: nat)
    requires
        ws.len() == ls.len(),
        0 <= i <= ls.len(),
    ensures
        ({
            let (ws2, rem2) = distribute(ls, ws, i, rem);
            &&& ws2.len() == ws.len()
            &&& sum(ws2) + rem2 == sum(ws) + rem
            &&& rem2 <= rem
            &&& forall|j: int|
                0 <= j < ws.len() && (j < i || !(ls[j] is Expandable)) ==> ws2[j] == ws[j]
            &&& forall|j: int| 0 <= j < ws.len() ==> ws2[j] >= ws[j]
            &&& forall|j: int|
                i <= j < ws.len() && ls[j] is Expandable && ws[j] <= ls[j]->Expandable_0
                    ==> ws2[j] <= ls[j]->Expandable_0
        }),
    decreases ls.len() - i,
{
    if i < ls.len() {
        match ls[i] {
            Layout::Expandable(max) => {
                lemma_expandable_from(ls, i);
                let nw = compensated(ws[i], max as nat, rem / expandable_from(ls, i));
                let applied: nat = if nw > ws[i] {
                    (nw - ws[i]) as nat
                } else {
                    0
                };
                let k = expandable_from(ls, i);
                let inc = rem / k;
                assert(nw <= ws[i] + inc);
                assert(applied <= inc);
                assert(inc <= rem) by (nonlinear_arith)
                    requires
                        k >= 1,
                        inc == rem / k,
                ;
                let ws1 = ws.update(i, ws[i] + applied);
                lemma_sum_update(ws, i, ws[i] + applied);
                lemma_distribute(ls, ws1, i + 1, (rem - applied) as nat);
            },
            _ => {
                lemma_distribute(ls, ws, i + 1, rem);
            },
        }
    }
}

proof fn lemma_distribute_nothing(ls: Seq<Layout>, ws: Seq<nat>, i: int)
    requires
        ws.len() == ls.len(),
        0 <= i <= ls.len(),
    ensures
        distribute(ls, ws, i, 0).1 == 0,
    decreases ls.len() - i,
{
    lemma_distribute(ls, ws, i, 0);
}

/// Where no expandable column from `i` on would reach its maximum by taking
/// the whole remainder, and there is one, all of the remainder is handed out.
proof fn lemma_distribute_all(ls: Seq<Layout>, ws: Seq<nat>, i: int, rem: nat)
    requires
        ws.len() == ls.len(),
        0 <= i <= ls.len(),
        expandable_from(ls, i) >= 1,
        forall|j: int|
            i <= j < ls.len() && ls[j] is Expandable ==> ws[j] + rem <= ls[j]->Expandable_0,
    ensures
        distribute(ls, ws, i, rem).1 == 0,
    decreases ls.len() - i,
{
    if i < ls.len() {
        match ls[i] {
            Layout::Expandable(max) => {
                let k = expandable_from(ls, i);
                let inc = rem / k;
                assert(inc <= rem) by (nonlinear_arith)
                    requires
                        k >= 1,
                        inc == rem / k,
                ;
                let ws1 = ws.update(i, ws[i] + inc);
                assert(compensated(ws[i], max as nat, inc) == ws[i] + inc);
                if k == 1 {
                    assert(inc == rem) by (nonlinear_arith)
                        requires
                            k == 1,
                            inc == rem / k,
                    ;
                    lemma_distribute_nothing(ls, ws1, i + 1);
                } else {
                    lemma_distribute_all(ls, ws1, i + 1, (rem - inc) as nat);
                }
            },
            _ => {
                lemma_distribute_all(ls, ws, i + 1, rem);
            },
        }
    }
}

/// Fixed and slim columns keep their minimum width whatever the target.
pub proof fn fixed_and_slim_keep_min_width(
    ls: Seq<Layout>,
    hs: Seq<Seq<char>>,
    padding: nat,
    target: nat,
)
    ensures
        resolved_widths(ls, hs, padding, target).len() == ls.len(),
        forall|j: int|
            0 <= j < ls.len() && !(ls[j] is Expandable) ==> resolved_widths(
                ls,
                hs,
                padding,
                target,
            )[j] == min_widths(ls, hs, padding)[j],
{
    lemma_distribute(ls, min_widths(ls, hs, padding), 0, spare_width(ls, hs, padding, target));
}

/// Every column is at least its minimum width, and an expandable column
/// whose minimum is within its maximum ends within its maximum.
pub proof fn expandable_within_max(ls: Seq<Layout>, hs: Seq<Seq<char>>, padding: nat, target: nat)
    ensures
        forall|j: int|
            0 <= j < ls.len() ==> resolved_widths(ls, hs, padding, target)[j] >= min_widths(
                ls,
                hs,
                padding,
            )[j],
        forall|j: int|
            0 <= j < ls.len() && ls[j] is Expandable && min_widths(ls, hs, padding)[j]
                <= ls[j]->Expandable_0 ==> resolved_widths(ls, hs, padding, target)[j]
                <= ls[j]->Expandable_0,
{
    lemma_distribute(ls, min_widths(ls, hs, padding), 0, spare_width(ls, hs, padding, target));
}

/// The widths and the dividers always add up to the target, less what no
/// expandable column could take, when the target is at least the minimum
/// table width.
pub proof fn widths_account_for_target(
    ls: Seq<Layout>,
    hs: Seq<Seq<char>>,
    padding: nat,
    target: nat,
)
    requires
        target >= min_table_width(ls, hs, padding),
    ensures
        sum(resolved_widths(ls, hs, padding, target)) + ls.len() + 1 + undistributed(
            ls,
            hs,
            padding,
            target,
        ) == target,
{
    lemma_distribute(ls, min_widths(ls, hs, padding), 0, spare_width(ls, hs, padding, target));
}

/// The widths and the dividers add up exactly to the target when it is at
/// least the minimum table width, some column is expandable, and no
/// expandable column would pass its maximum by taking all the spare width.
pub proof fn widths_fill_target(ls: Seq<Layout>, hs: Seq<Seq<char>>, padding: nat, target: nat)
    requires
        target >= min_table_width(ls, hs, padding),
        expandable_from(ls, 0) >= 1,
        forall|j: int|
            0 <= j < ls.len() && ls[j] is Expandable ==> min_widths(ls, hs, padding)[j]
                + spare_width(ls, hs, padding, target) <= ls[j]->Expandable_0,
    ensures
        sum(resolved_widths(ls, hs, padding, target)) + ls.len() + 1 == target,
{
    widths_account_for_target(ls, hs, padding, target);
    lemma_distribute_all(
        ls,
        min_widths(ls, hs, padding),
        0,
        spare_width(ls, hs, padding, target),
    );
}

fn compensate(width: usize, max_width: usize, compensation: usize) -> (r: usize)
    requires
        width + compensation <= usize::MAX,
    ensures
        r == compensated(width as nat, max_width as nat, compensation as nat),
{
    let compensated = width + compensation;
    if compensated > max_width {
        max_width
    } else {
        compensated
    }
}

/// The width of each column of a table `table_width` wide, for columns laid out
/// as `layouts`, titled `headers` (by position; a column past the last header
/// has none), with `padding` on each side of a cell.
pub fn resolve_widths(
    layouts: &Vec<Layout>,
    headers: &Vec<String>,
    padding: usize,
    table_width: usize,
) -> (r: Vec<usize>)
    requires
        min_table_width(layouts@, str_views(headers@), padding as nat) <= usize::MAX,
    ensures
        usize_views(r@) == resolved_widths(
            layouts@,
            str_views(headers@),
            padding as nat,
            table_width as nat,
        ),
{
    let ghost ls = layouts@;
    let ghost hs = str_views(headers@);
    let ghost mins = min_widths(ls, hs, padding as nat);
    let n = layouts.len();
    let mut widths: Vec<usize> = Vec::new();
    let mut min_table_width: usize = 0;
    let mut i: usize = 0;
    assert(mins.take(0) =~= Seq::<nat>::empty());
    while i < n
        invariant
            n == ls.len(),
            ls == layouts@,
            hs == str_views(headers@),
            mins == min_widths(ls, hs, padding as nat),
            i <= n,
            usize_views(widths@) =~= mins.take(i as int),
            min_table_width == sum(mins.take(i as int)),
            sum(mins) + n + 1 <= usize::MAX,
        decreases n - i,
    {
        proof {
            lemma_sum_prefix(mins, i as int);
        }
        let w = match layouts[i] {
            Layout::Fixed(w) => w,
            _ => {
                if i < headers.len() {
                    headers[i].as_str().unicode_len() + 2 * padding
                } else {
                    0
                }
            },
        };
        assert(w == mins[i as int]);
        widths.push(w);
        min_table_width = min_table_width + w;
        i = i + 1;
    }
    assert(mins.take(n as int) =~= mins);
    min_table_width = min_table_width + n + 1;
    let remaining = if table_width > min_table_width {
        table_width - min_table_width
    } else {
        0
    };
    let mut count: usize = 0;
    let mut j: usize = n;
    while j > 0
        invariant
            n == ls.len(),
            ls == layouts@,
            j <= n,
            count == expandable_from(ls, j as int),
            count <= n - j,
        decreases j,
    {
        j = j - 1;
        match layouts[j] {
            Layout::Expandable(_) => {
                count = count + 1;
            },
            _ => {},
        }
    }
    let ghost spare = spare_width(ls, hs, padding as nat, table_width as nat);
    assert(remaining == spare);
    let mut rem = remaining;
    let mut k = count;
    i = 0;
    while i < n
        invariant
            n == ls.len(),
            ls == layouts@,
            widths@.len() == n,
            i <= n,
            distribute(ls, mins, 0, spare) == distribute(ls, usize_views(widths@), i as int, rem as nat),
            k == expandable_from(ls, i as int),
            sum(usize_views(widths@)) + rem <= usize::MAX,
        decreases n - i,
    {
        let ghost ws = usize_views(widths@);
        match layouts[i] {
            Layout::Expandable(max_width) => {
                proof {
                    lemma_expandable_from(ls, i as int);
                    lemma_sum_prefix(ws, i as int);
                    assert(rem / k <= rem) by (nonlinear_arith)
                        requires
                            k >= 1,
                    ;
                }
                let cur = widths[i];
                let new_width = compensate(cur, max_width, rem / k);
                let compensation = if new_width > cur {
                    new_width - cur
                } else {
                    0
                };
                if new_width > cur {
                    widths[i] = new_width;
                }
                proof {
                    assert(usize_views(widths@) =~= ws.update(i as int, (ws[i as int] + compensation) as nat));
                    lemma_sum_update(ws, i as int, (ws[i as int] + compensation) as nat);
                }
                rem = rem - compensation;
                k = k - 1;
            },
            _ => {},
        }
        i = i + 1;
    }
    widths
}

} // verus!
