//! Rows of string cells kept by a mark or put in order by a comparison that
//! the caller supplies: the comparison of cells (numeric when both parse as
//! numbers) is the caller's, the keeping and the ordering are done here.
use vstd::prelude::*;
use crate::table_ops::Order;

verus! {

/// The first `n` rows whose marks are set, in order.
pub open spec fn kept<T>(rows: Seq<T>, marks: Seq<bool>, n: int) -> Seq<T>
    decreases n,
{
    if n <= 0 {
        Seq::empty()
    } else if marks[n - 1] {
        kept(rows, marks, n - 1).push(rows[n - 1])
    } else {
        kept(rows, marks, n - 1)
    }
}

/// The rows whose marks are set, in order.
pub fn retain_marked<T>(rows: Vec<T>, marks: &Vec<bool>) -> (r: Vec<T>)
    requires
        marks@.len() == rows@.len(),
    ensures
        r@ == kept(rows@, marks@, rows@.len() as int),
{
    let n = rows.len();
    let mut out: Vec<T> = Vec::new();
    let mut rest = rows;
    let ghost all = rest@;
    // Rows are taken from the back and put in order at the end.
    let mut back: Vec<T> = Vec::new();
    while rest.len() > 0
        invariant
            rest@ == all.take(rest@.len() as int),
            rest@.len() + back@.len() == all.len(),
            marks@.len() == all.len(),
            forall|q: int| 0 <= q < back@.len() ==> back@[q] == all[all.len() - 1 - q],
        decreases rest@.len(),
    {
        let row = rest.pop().unwrap();
        back.push(row);
    }
    let mut k: usize = 0;
    while back.len() > 0
        invariant
            k + back@.len() == all.len(),
            all.len() == n,
            marks@.len() == all.len(),
            forall|q: int| 0 <= q < back@.len() ==> back@[q] == all[all.len() - 1 - q],
            out@ == kept(all, marks@, k as int),
        decreases back@.len(),
    {
        let row = back.pop().unwrap();
        assert(row == all[k as int]);
        if marks[k] {
            out.push(row);
        }
        k = k + 1;
    }
    out
}

/// The cell at `i` of a row, empty when the row is shorter.
pub open spec fn cell_or_empty(row: Seq<String>, i: int) -> Seq<char> {
    if 0 <= i < row.len() {
        row[i]@
    } else {
        Seq::empty()
    }
}

/// The cell at `i` of a row, as `cell_or_empty` says.
pub fn cell_text(row: &Vec<String>, i: usize) -> (r: &str)
    ensures
        r@ == cell_or_empty(row@, i as int),
{
    if i < row.len() {
        row[i].as_str()
    } else {
        proof {
            reveal_strlit("");
        }
        ""
    }
}

/// `o` is what `order` may give for texts `a` and `b`.
pub open spec fn may_give<F: Fn(&str, &str) -> Order>(order: F, a: Seq<char>, b: Seq<char>, o: Order) -> bool {
    exists|x: &str, y: &str| x@ == a && y@ == b && #[trigger] order.ensures((x, y), o)
}

/// A call of `order` on `(a, b)` may say that `b` goes before `a`:
/// `Greater` (`Less` when descending).
pub open spec fn goes_before<F: Fn(&str, &str) -> Order>(order: F, a: Seq<char>, b: Seq<char>, descending: bool) -> bool {
    exists|o: Order| #[trigger] may_give(order, a, b, o) && (if descending { o == Order::Less } else { o == Order::Greater })
}

/// A call of `order` on `(a, b)` may say that `b` stays after `a`.
pub open spec fn stays_after<F: Fn(&str, &str) -> Order>(order: F, a: Seq<char>, b: Seq<char>, descending: bool) -> bool {
    exists|o: Order| #[trigger] may_give(order, a, b, o) && (if descending { o != Order::Less } else { o != Order::Greater })
}

/// That `a` stands just before `b` was justified by a call of `order`: on
/// `(a, b)` it let `b` stay after `a`, or on `(b, a)` it put `a` first.
pub open spec fn placed_after<F: Fn(&str, &str) -> Order>(order: F, a: Seq<char>, b: Seq<char>, descending: bool) -> bool {
    stays_after(order, a, b, descending) || goes_before(order, b, a, descending)
}

/// The rows put in order by their cells at `i`, keeping rows that compare
/// equal in their order: each row goes after the last one that does not
/// compare greater (less when descending) than it. The rows are the same,
/// and each two neighbours stand as a call of `order` justified.
pub fn sort_rows_by<F: Fn(&str, &str) -> Order>(rows: Vec<Vec<String>>, i: usize, descending: bool, order: F) -> (r: Vec<
    Vec<String>,
>)
    requires
        forall|x: &str, y: &str| #[trigger] order.requires((x, y)),
    ensures
        r@.to_multiset() == rows@.to_multiset(),
        r@.len() == rows@.len(),
        forall|j: int| 1 <= j < r@.len() ==> placed_after(order, cell_or_empty(r@[j - 1]@, i as int), cell_or_empty((#[trigger] r@[j])@, i as int), descending),
{
    broadcast use vstd::seq_lib::to_multiset_build, vstd::seq_lib::to_multiset_insert;
    broadcast use vstd::seq_lib::to_multiset_len, vstd::multiset::group_multiset_axioms;
    let n = rows.len();
    let ghost all = rows@;
    let mut rest = rows;
    let mut back: Vec<Vec<String>> = Vec::new();
    while rest.len() > 0
        invariant
            rest@ == all.take(rest@.len() as int),
            rest@.len() + back@.len() == all.len(),
            forall|q: int| 0 <= q < back@.len() ==> back@[q] == all[all.len() - 1 - q],
        decreases rest@.len(),
    {
        let row = rest.pop().unwrap();
        back.push(row);
    }
    let mut out: Vec<Vec<String>> = Vec::new();
    let mut k: usize = 0;
    proof {
        assert(all.take(0) =~= Seq::<Vec<String>>::empty());
        assert(out@.to_multiset() =~= all.take(0).to_multiset());
    }
    while back.len() > 0
        invariant
            k + back@.len() == all.len(),
            all.len() == n,
            forall|q: int| 0 <= q < back@.len() ==> back@[q] == all[all.len() - 1 - q],
            forall|x: &str, y: &str| #[trigger] order.requires((x, y)),
            out@.to_multiset() == all.take(k as int).to_multiset(),
            out@.len() == k,
            forall|j: int| 1 <= j < out@.len() ==> placed_after(order, cell_or_empty(out@[j - 1]@, i as int), cell_or_empty((#[trigger] out@[j])@, i as int), descending),
        decreases back@.len(),
    {
        let x = back.pop().unwrap();
        let ghost xv = x;
        assert(xv == all[k as int]);
        let mut p: usize = out.len();
        while p > 0
            invariant
                0 <= p <= out@.len(),
                forall|x: &str, y: &str| #[trigger] order.requires((x, y)),
                    forall|q: int| p <= q < out@.len() ==> goes_before(order, cell_or_empty((#[trigger] out@[q])@, i as int), cell_or_empty(x@, i as int), descending),
            ensures
                0 <= p <= out@.len(),
                forall|q: int| p <= q < out@.len() ==> goes_before(order, cell_or_empty((#[trigger] out@[q])@, i as int), cell_or_empty(x@, i as int), descending),
                p > 0 ==> stays_after(order, cell_or_empty(out@[p - 1]@, i as int), cell_or_empty(x@, i as int), descending),
            decreases p,
        {
            let o = order(cell_text(&out[p - 1], i), cell_text(&x, i));
            proof {
                assert(may_give(order, cell_or_empty(out@[p - 1]@, i as int), cell_or_empty(x@, i as int), o));
            }
            let moves = if descending { o == Order::Less } else { o == Order::Greater };
            if !moves {
                break;
            }
            p = p - 1;
        }
        let ghost before = out@;
        out.insert(p, x);
        proof {
            assert(out@ == before.insert(p as int, xv));
            assert(all.take(k + 1) == all.take(k as int).push(xv));
            vstd::seq_lib::to_multiset_insert(before, p as int, xv);
            vstd::seq_lib::to_multiset_build(all.take(k as int), xv);
            assert forall|j: int| 1 <= j < out@.len() implies placed_after(order, cell_or_empty(out@[j - 1]@, i as int), cell_or_empty((#[trigger] out@[j])@, i as int), descending) by {
                if j < p {
                    assert(out@[j - 1] == before[j - 1] && out@[j] == before[j]);
                } else if j == p {
                    assert(out@[j - 1] == before[j - 1] && out@[j] == xv);
                } else if j == p + 1 {
                    assert(out@[j - 1] == xv && out@[j] == before[j - 1]);
                    assert(goes_before(order, cell_or_empty(before[p as int]@, i as int), cell_or_empty(xv@, i as int), descending));
                } else {
                    assert(out@[j - 1] == before[j - 2] && out@[j] == before[j - 1]);
                }
            }
        }
        k = k + 1;
    }
    proof {
        assert(all.take(k as int) == all);
    }
    out
}

/// Items, each with its key, put in order by their keys as `sort_rows_by`
/// puts rows in order by a cell.
pub fn sort_keyed<T, F: Fn(&str, &str) -> Order>(rows: Vec<(String, T)>, descending: bool, order: F) -> (r: Vec<(String, T)>)
    requires
        forall|x: &str, y: &str| #[trigger] order.requires((x, y)),
    ensures
        r@.to_multiset() == rows@.to_multiset(),
        r@.map_values(|p: (String, T)| p.1).to_multiset() == rows@.map_values(|p: (String, T)| p.1).to_multiset(),
        r@.len() == rows@.len(),
        forall|j: int| 1 <= j < r@.len() ==> placed_after(order, r[j - 1].0@, (#[trigger] r[j]).0@, descending),
{
    broadcast use vstd::seq_lib::to_multiset_build, vstd::seq_lib::to_multiset_insert;
    broadcast use vstd::seq_lib::to_multiset_len, vstd::multiset::group_multiset_axioms;
    let n = rows.len();
    let ghost all = rows@;
    let mut rest = rows;
    let mut back: Vec<(String, T)> = Vec::new();
    while rest.len() > 0
        invariant
            rest@ == all.take(rest@.len() as int),
            rest@.len() + back@.len() == all.len(),
            forall|q: int| 0 <= q < back@.len() ==> back@[q] == all[all.len() - 1 - q],
        decreases rest@.len(),
    {
        let row = rest.pop().unwrap();
        back.push(row);
    }
    let mut out: Vec<(String, T)> = Vec::new();
    let mut k: usize = 0;
    proof {
        assert(all.take(0) =~= Seq::<(String, T)>::empty());
        assert(out@.to_multiset() =~= all.take(0).to_multiset());
        assert(out@.map_values(|p: (String, T)| p.1) =~= Seq::<T>::empty());
        assert(all.take(0).map_values(|p: (String, T)| p.1) =~= Seq::<T>::empty());
    }
    while back.len() > 0
        invariant
            k + back@.len() == all.len(),
            all.len() == n,
            forall|q: int| 0 <= q < back@.len() ==> back@[q] == all[all.len() - 1 - q],
            forall|x: &str, y: &str| #[trigger] order.requires((x, y)),
            out@.to_multiset() == all.take(k as int).to_multiset(),
            out@.map_values(|p: (String, T)| p.1).to_multiset() == all.take(k as int).map_values(|p: (String, T)| p.1).to_multiset(),
            out@.len() == k,
            forall|j: int| 1 <= j < out@.len() ==> placed_after(order, out[j - 1].0@, (#[trigger] out[j]).0@, descending),
        decreases back@.len(),
    {
        let x = back.pop().unwrap();
        let ghost xv = x;
        assert(xv == all[k as int]);
        let mut p: usize = out.len();
        while p > 0
            invariant
                0 <= p <= out@.len(),
                forall|x: &str, y: &str| #[trigger] order.requires((x, y)),
                    forall|q: int| p <= q < out@.len() ==> goes_before(order, (#[trigger] out[q]).0@, x.0@, descending),
            ensures
                0 <= p <= out@.len(),
                forall|q: int| p <= q < out@.len() ==> goes_before(order, (#[trigger] out[q]).0@, x.0@, descending),
                p > 0 ==> stays_after(order, out[p - 1].0@, x.0@, descending),
            decreases p,
        {
            let o = order(out[p - 1].0.as_str(), x.0.as_str());
            proof {
                assert(may_give(order, out[p - 1].0@, x.0@, o));
            }
            let moves = if descending { o == Order::Less } else { o == Order::Greater };
            if !moves {
                break;
            }
            p = p - 1;
        }
        let ghost before = out@;
        out.insert(p, x);
        proof {
            assert(out@ == before.insert(p as int, xv));
            assert(all.take(k + 1) == all.take(k as int).push(xv));
            vstd::seq_lib::to_multiset_insert(before, p as int, xv);
            vstd::seq_lib::to_multiset_build(all.take(k as int), xv);
            let ms = before.map_values(|p: (String, T)| p.1);
            let ts = all.take(k as int).map_values(|p: (String, T)| p.1);
            assert(out@.map_values(|p: (String, T)| p.1) =~= ms.insert(p as int, xv.1));
            assert(all.take(k + 1).map_values(|p: (String, T)| p.1) =~= ts.push(xv.1));
            vstd::seq_lib::to_multiset_insert(ms, p as int, xv.1);
            vstd::seq_lib::to_multiset_build(ts, xv.1);
            assert forall|j: int| 1 <= j < out@.len() implies placed_after(order, out[j - 1].0@, (#[trigger] out[j]).0@, descending) by {
                if j < p {
                    assert(out@[j - 1] == before[j - 1] && out@[j] == before[j]);
                } else if j == p {
                    assert(out@[j - 1] == before[j - 1] && out@[j] == xv);
                } else if j == p + 1 {
                    assert(out@[j - 1] == xv && out@[j] == before[j - 1]);
                    assert(goes_before(order, before[p as int].0@, xv.0@, descending));
                } else {
                    assert(out@[j - 1] == before[j - 2] && out@[j] == before[j - 1]);
                }
            }
        }
        k = k + 1;
    }
    proof {
        assert(all.take(k as int) == all);
    }
    out
}


} // verus!
