//! Column widths for tables that must fit a terminal.

use vstd::prelude::*;
use vstd::string::*;
use crate::text::{contains, contains_exec, lower_of, to_lower};

verus! {

/// The smaller of two numbers.
pub open spec fn min_nat(a: nat, b: nat) -> nat {
    if a < b {
        a
    } else {
        b
    }
}

/// The larger of two numbers.
pub open spec fn max_nat(a: nat, b: nat) -> nat {
    if a < b {
        b
    } else {
        a
    }
}

/// The least width of column `i`: its header's length up to 8, raised by each
/// row's cell length up to 8.
pub open spec fn min_width(h: Seq<char>, rows: Seq<Vec<String>>, i: int) -> nat
    decreases rows.len(),
{
    if rows.len() == 0 {
        min_nat(h.len(), 8)
    } else {
        let prev = min_width(h, rows.drop_last(), i);
        let r = rows.last()@;
        if 0 <= i < r.len() {
            max_nat(prev, min_nat(r[i]@.len(), 8))
        } else {
            prev
        }
    }
}

/// The most width that column `i` may grow to: its header's length but at
/// least 15, raised by each row's cell length up to 40.
pub open spec fn max_width(h: Seq<char>, rows: Seq<Vec<String>>, i: int) -> nat
    decreases rows.len(),
{
    if rows.len() == 0 {
        max_nat(h.len(), 15)
    } else {
        let prev = max_width(h, rows.drop_last(), i);
        let r = rows.last()@;
        if 0 <= i < r.len() {
            max_nat(prev, min_nat(r[i]@.len(), 40))
        } else {
            prev
        }
    }
}

/// The share of a column whose header names no priority: URL columns 3, name
/// and method columns 2, others 1.
pub open spec fn default_priority(h: Seq<char>) -> nat {
    if contains(lower_of(h), "url"@) {
        3
    } else if contains(lower_of(h), "name"@) || contains(lower_of(h), "method"@) {
        2
    } else {
        1
    }
}

/// The sum of a sequence of numbers.
pub open spec fn sum(s: Seq<nat>) -> nat
    decreases s.len(),
{
    if s.len() == 0 {
        0
    } else {
        sum(s.drop_last()) + s.last()
    }
}

/// The least widths of all columns.
pub open spec fn min_widths(headers: Seq<&str>, rows: Seq<Vec<String>>) -> Seq<nat> {
    Seq::new(headers.len(), |i: int| min_width(headers[i]@, rows, i))
}

/// The priority of each column: as given (0 past the given ones), or by default.
pub open spec fn priorities(headers: Seq<&str>, given: Option<Vec<usize>>) -> Seq<nat> {
    Seq::new(
        headers.len(),
        |i: int|
            match given {
                Some(p) => if i < p@.len() {
                    p@[i] as nat
                } else {
                    0
                },
                None => default_priority(headers[i]@),
            },
    )
}

/// The width of column `i`. When the least widths do not fit in the space
/// left after 3 characters between columns, each is scaled down in
/// proportion, but not below 5; otherwise each column gets its least width
/// plus its priority's share of the spare space, up to its most width.
pub open spec fn column_width(
    headers: Seq<&str>,
    rows: Seq<Vec<String>>,
    available: nat,
    given: Option<Vec<usize>>,
    i: int,
) -> nat {
    let n = headers.len();
    let content = if available >= (n - 1) * 3 {
        (available - (n - 1) * 3) as nat
    } else {
        0
    };
    let mins = min_widths(headers, rows);
    let total = sum(mins);
    if total > content {
        max_nat(mins[i] * content / total, 5)
    } else {
        let spare = (content - total) as nat;
        let p = priorities(headers, given);
        let tp = match given {
            Some(g) => sum(g@.map_values(|x: usize| x as nat)),
            None => sum(p),
        };
        if tp > 0 {
            mins[i] + min_nat(
                spare * p[i] / tp,
                (max_width(headers[i]@, rows, i) - mins[i]) as nat,
            )
        } else {
            mins[i]
        }
    }
}

/// A prefix one longer adds the next element to the sum.
proof fn lemma_sum_prefix(s: Seq<nat>, i: int)
    requires
        0 <= i < s.len(),
    ensures
        sum(s.take(i + 1)) == sum(s.take(i)) + s[i],
{
    assert(s.take(i + 1).drop_last() =~= s.take(i));
}

/// A part of a sum is at most the whole.
proof fn lemma_sum_part(s: Seq<nat>, i: int)
    requires
        0 <= i < s.len(),
    ensures
        s[i] <= sum(s),
    decreases s.len(),
{
    if i < s.len() - 1 {
        lemma_sum_part(s.drop_last(), i);
    }
}

/// A least width is at most 8 and at most the most width.
proof fn lemma_width_bounds(h: Seq<char>, rows: Seq<Vec<String>>, i: int)
    ensures
        min_width(h, rows, i) <= 8,
        min_width(h, rows, i) <= max_width(h, rows, i),
    decreases rows.len(),
{
    if rows.len() > 0 {
        lemma_width_bounds(h, rows.drop_last(), i);
    }
}

/// The widths of the columns, one per header; see `column_width`.
#[verifier::loop_isolation(false)]
pub fn calculate_column_widths(
    headers: &[&str],
    rows: &[Vec<String>],
    available_width: usize,
    column_priorities: Option<Vec<usize>>,
) -> (r: Vec<usize>)
    requires
        column_priorities is Some ==> column_priorities->Some_0@.len() <= headers@.len(),
    ensures
        r@.len() == headers@.len(),
        forall|i: int|
            0 <= i < r@.len() ==> r@[i] as nat == column_width(
                headers@,
                rows@,
                available_width as nat,
                column_priorities,
                i,
            ),
{
    let n = headers.len();
    if n == 0 {
        return Vec::new();
    }
    let mut mins: Vec<usize> = Vec::new();
    let mut maxs: Vec<usize> = Vec::new();
    let mut j: usize = 0;
    while j < n
        invariant
            n == headers@.len(),
            j <= n,
            mins@.len() == j,
            maxs@.len() == j,
            forall|k: int|
                0 <= k < j ==> mins@[k] as nat == min_width(headers@[k]@, rows@.take(0), k)
                    && maxs@[k] as nat == max_width(headers@[k]@, rows@.take(0), k),
        decreases n - j,
    {
        let len = headers[j].unicode_len();
        mins.push(if len < 8 { len } else { 8 });
        maxs.push(if len > 15 { len } else { 15 });
        j = j + 1;
    }
    let mut r: usize = 0;
    while r < rows.len()
        invariant
            n == headers@.len(),
            r <= rows@.len(),
            mins@.len() == n,
            maxs@.len() == n,
            forall|k: int|
                0 <= k < n ==> mins@[k] as nat == min_width(headers@[k]@, rows@.take(r as int), k)
                    && maxs@[k] as nat == max_width(headers@[k]@, rows@.take(r as int), k),
        decreases rows@.len() - r,
    {
        let row = &rows[r];
        let ghost before_min = mins@;
        let ghost before_max = maxs@;
        let mut c: usize = 0;
        while c < n
            invariant
                n == headers@.len(),
                c <= n,
                row == &rows@[r as int],
                mins@.len() == n,
                maxs@.len() == n,
                forall|k: int|
                    c <= k < n ==> mins@[k] == before_min[k] && maxs@[k] == before_max[k],
                forall|k: int|
                    0 <= k < c ==> mins@[k] as nat == (if k < row@.len() {
                        max_nat(before_min[k] as nat, min_nat(row@[k]@.len(), 8))
                    } else {
                        before_min[k] as nat
                    }) && maxs@[k] as nat == (if k < row@.len() {
                        max_nat(before_max[k] as nat, min_nat(row@[k]@.len(), 40))
                    } else {
                        before_max[k] as nat
                    }),
            decreases n - c,
        {
            if c < row.len() {
                let len = row[c].as_str().unicode_len();
                let lo = if len < 8 { len } else { 8 };
                let hi = if len < 40 { len } else { 40 };
                if lo > mins[c] {
                    mins.set(c, lo);
                }
                if hi > maxs[c] {
                    maxs.set(c, hi);
                }
            }
            c = c + 1;
        }
        proof {
            assert forall|k: int| 0 <= k < n implies mins@[k] as nat == min_width(
                headers@[k]@,
                rows@.take(r + 1),
                k,
            ) && maxs@[k] as nat == max_width(headers@[k]@, rows@.take(r + 1), k) by {
                assert(rows@.take(r + 1).drop_last() =~= rows@.take(r as int));
                assert(rows@.take(r + 1).last() == rows@[r as int]);
            }
        }
        r = r + 1;
    }
    let ghost hv = headers@;
    let ghost rv = rows@;
    let ghost mv = min_widths(hv, rv);
    proof {
        assert(rv.take(rv.len() as int) =~= rv);
        assert(mv.len() == n);
        assert forall|k: int| 0 <= k < n implies mins@[k] as nat == mv[k] && mv[k] <= 8
            && maxs@[k] as nat == max_width(hv[k]@, rv, k) && mv[k] <= max_width(hv[k]@, rv, k) by {
            lemma_width_bounds(hv[k]@, rv, k);
        }
    }
    let sep: u128 = ((n - 1) as u128) * 3;
    let content: u128 = if available_width as u128 >= sep {
        available_width as u128 - sep
    } else {
        0
    };
    let mut total: u128 = 0;
    let mut k: usize = 0;
    while k < n
        invariant
            k <= n,
            n == mv.len(),
            mins@.len() == n,
            forall|q: int| 0 <= q < n ==> mins@[q] as nat == mv[q] && mv[q] <= 8,
            total == sum(mv.take(k as int)),
            total <= 8 * k,
        decreases n - k,
    {
        proof {
            lemma_sum_prefix(mv, k as int);
        }
        total = total + mins[k] as u128;
        k = k + 1;
    }
    proof {
        assert(mv.take(n as int) =~= mv);
    }
    let mut out: Vec<usize> = Vec::new();
    if total > content {
        let mut i: usize = 0;
        while i < n
            invariant
                i <= n,
                n == hv.len(),
                total == sum(mv),
                total > content,
                mins@.len() == n,
                forall|q: int| 0 <= q < n ==> mins@[q] as nat == mv[q],
                out@.len() == i,
                forall|q: int|
                    0 <= q < i ==> out@[q] as nat == column_width(
                        hv,
                        rv,
                        available_width as nat,
                        column_priorities,
                        q,
                    ),
            decreases n - i,
        {
            proof {
                lemma_sum_part(mv, i as int);
                let m = mv[i as int] as int;
                let c = content as int;
                let t = total as int;
                assert(m * c <= t * c) by (nonlinear_arith)
                    requires
                        m <= t,
                        c >= 0,
                ;
                assert(m * c / t <= c) by (nonlinear_arith)
                    requires
                        m * c <= t * c,
                        t > 0,
                        m >= 0,
                        c >= 0,
                ;
                assert(c <= 18446744073709551615);
                assert(m * c <= 8 * 18446744073709551615) by (nonlinear_arith)
                    requires
                        m <= 8,
                        c <= 18446744073709551615,
                        m >= 0,
                        c >= 0,
                ;
            }
            let scaled = (mins[i] as u128) * content / total;
            let w = if scaled < 5 { 5 } else { scaled as usize };
            out.push(w);
            i = i + 1;
        }
        return out;
    }
    let spare: u128 = content - total;
    let mut prio: Vec<u128> = Vec::new();
    let mut tp: u128 = 0;
    let ghost pv = priorities(hv, column_priorities);
    let mut i: usize = 0;
    while i < n
        invariant
            i <= n,
            n == hv.len(),
            hv == headers@,
            prio@.len() == i,
            forall|q: int| 0 <= q < i ==> prio@[q] as nat == pv[q],
            forall|q: int| 0 <= q < i ==> prio@[q] <= 18446744073709551615,
            pv == priorities(hv, column_priorities),
        decreases n - i,
    {
        let p: u128 = match &column_priorities {
            Some(g) => if i < g.len() {
                g[i] as u128
            } else {
                0
            },
            None => {
                let lh = to_lower(headers[i]);
                if contains_exec(lh.as_str(), "url") {
                    3
                } else if contains_exec(lh.as_str(), "name") || contains_exec(lh.as_str(), "method") {
                    2
                } else {
                    1
                }
            },
        };
        prio.push(p);
        i = i + 1;
    }
    let ghost tv = match &column_priorities {
        Some(g) => g@.map_values(|x: usize| x as nat),
        None => pv,
    };
    let tlen: usize = match &column_priorities {
        Some(g) => g.len(),
        None => n,
    };
    proof {
        assert forall|q: int| 0 <= q < tlen implies prio@[q] as nat == tv[q] by {
            assert(q < n);
            assert(prio@[q] as nat == pv[q]);
        }
    }
    let mut k: usize = 0;
    while k < tlen
        invariant
            k <= tlen,
            tlen == tv.len(),
            tlen <= n,
            prio@.len() == n,
            forall|q: int| 0 <= q < tlen ==> prio@[q] as nat == tv[q],
            forall|q: int| 0 <= q < tlen ==> tv[q] <= 18446744073709551615,
            tp == sum(tv.take(k as int)),
            tp <= k * 18446744073709551615,
        decreases tlen - k,
    {
        proof {
            lemma_sum_prefix(tv, k as int);
        }
        tp = tp + prio[k];
        k = k + 1;
    }
    proof {
        assert(tv.take(tlen as int) =~= tv);
    }
    let mut j: usize = 0;
    while j < n
        invariant
            j <= n,
            n == hv.len(),
            total == sum(mv),
            total <= content,
            spare == content - total,
            tp == sum(tv),
            mins@.len() == n,
            maxs@.len() == n,
            prio@.len() == n,
            forall|q: int| 0 <= q < n ==> mins@[q] as nat == mv[q],
            forall|q: int| 0 <= q < n ==> maxs@[q] as nat == max_width(hv[q]@, rv, q),
            forall|q: int| 0 <= q < n ==> prio@[q] as nat == pv[q],
            out@.len() == j,
            forall|q: int|
                0 <= q < j ==> out@[q] as nat == column_width(
                    hv,
                    rv,
                    available_width as nat,
                    column_priorities,
                    q,
                ),
        decreases n - j,
    {
        let w = if tp > 0 {
            proof {
                let a = spare as int;
                let b = prio@[j as int] as int;
                assert(a * b <= 18446744073709551615 * 18446744073709551615) by (nonlinear_arith)
                    requires
                        0 <= a <= 18446744073709551615,
                        0 <= b <= 18446744073709551615,
                ;
            }
            let add = spare * prio[j] / tp;
            let room = if maxs[j] > mins[j] { maxs[j] - mins[j] } else { 0 };
            let extra = if add < room as u128 { add as usize } else { room };
            mins[j] + extra
        } else {
            mins[j]
        };
        out.push(w);
        j = j + 1;
    }
    out
}

} // verus!
