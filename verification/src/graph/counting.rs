//! Specification helpers that count and list the occupied slots of
//! sequences of optional values and of square matrices built from them.
use vstd::prelude::*;

verus! {

/// The number of slots of `s` that hold a value.
pub open spec fn count_some<T>(s: Seq<Option<T>>) -> nat
    decreases s.len(),
{
    if s.len() == 0 {
        0
    } else {
        count_some(s.drop_last()) + if s.last() is Some {
            1nat
        } else {
            0nat
        }
    }
}

/// The indices of the slots of `s` that hold a value, in increasing order.
pub open spec fn some_indices<T>(s: Seq<Option<T>>) -> Seq<usize>
    decreases s.len(),
{
    if s.len() == 0 {
        Seq::empty()
    } else {
        some_indices(s.drop_last()) + if s.last() is Some {
            seq![(s.len() - 1) as usize]
        } else {
            Seq::empty()
        }
    }
}

/// The pairs `(i, j)` for which row `r` (taken as row `i` of a matrix) holds a value at `j`.
pub open spec fn row_edges<T>(i: usize, r: Seq<Option<T>>) -> Seq<(usize, usize)> {
    some_indices(r).map_values(|j: usize| (i, j))
}

/// The occupied cells of a matrix, row by row, each row from left to right.
pub open spec fn edge_list<T>(m: Seq<Seq<Option<T>>>) -> Seq<(usize, usize)>
    decreases m.len(),
{
    if m.len() == 0 {
        Seq::empty()
    } else {
        edge_list(m.drop_last()) + row_edges((m.len() - 1) as usize, m.last())
    }
}

/// The number of occupied cells of a matrix.
pub open spec fn edge_count<T>(m: Seq<Seq<Option<T>>>) -> nat
    decreases m.len(),
{
    if m.len() == 0 {
        0
    } else {
        edge_count(m.drop_last()) + count_some(m.last())
    }
}

/// 1 if the slot holds a value, 0 otherwise.
pub open spec fn occupied<T>(o: Option<T>) -> int {
    if o is Some {
        1
    } else {
        0
    }
}

/// Replacing one cell changes the count of filled cells by the difference of the two cells.
pub proof fn lemma_count_some_update<T>(s: Seq<Option<T>>, i: int, v: Option<T>)
    requires
        0 <= i < s.len(),
    ensures
        count_some(s.update(i, v)) as int == count_some(s) as int - occupied(s[i]) + occupied(v),
    decreases s.len(),
{
    let t = s.update(i, v);
    if i == s.len() - 1 {
        assert(t.drop_last() =~= s.drop_last());
    } else {
        assert(t.drop_last() =~= s.drop_last().update(i, v));
        lemma_count_some_update(s.drop_last(), i, v);
    }
}

/// A row holds at most as many filled cells as it has cells.
pub proof fn lemma_count_some_bound<T>(s: Seq<Option<T>>)
    ensures
        count_some(s) <= s.len(),
    decreases s.len(),
{
    if s.len() > 0 {
        lemma_count_some_bound(s.drop_last());
    }
}

/// A row of `n` empty cells holds no filled cell.
pub proof fn lemma_count_some_none<T>(n: nat)
    ensures
        count_some(Seq::new(n, |k: int| None::<T>)) == 0,
    decreases n,
{
    if n > 0 {
        assert(Seq::new(n, |k: int| None::<T>).drop_last() =~= Seq::new((n - 1) as nat, |k: int| None::<T>));
        lemma_count_some_none::<T>((n - 1) as nat);
    }
}

/// The list of filled positions has one entry per filled cell.
pub proof fn lemma_some_indices_len<T>(s: Seq<Option<T>>)
    ensures
        some_indices(s).len() == count_some(s),
    decreases s.len(),
{
    if s.len() > 0 {
        lemma_some_indices_len(s.drop_last());
    }
}

/// Extending a prefix by one cell appends that position when the cell is filled.
pub proof fn lemma_some_indices_take<T>(s: Seq<Option<T>>, j: int)
    requires
        0 <= j < s.len(),
    ensures
        some_indices(s.take(j + 1)) == some_indices(s.take(j)) + if s[j] is Some {
            seq![j as usize]
        } else {
            Seq::<usize>::empty()
        },
{
    assert(s.take(j + 1).drop_last() =~= s.take(j));
}

/// The edge list of the first rows grows by the edges of the next row.
pub proof fn lemma_edge_list_take<T>(m: Seq<Seq<Option<T>>>, i: int)
    requires
        0 <= i < m.len(),
    ensures
        edge_list(m.take(i + 1)) == edge_list(m.take(i)) + row_edges(i as usize, m[i]),
{
    assert(m.take(i + 1).drop_last() =~= m.take(i));
}

/// Replacing one row changes the edge count by the difference of the two rows' counts.
pub proof fn lemma_edge_count_update<T>(m: Seq<Seq<Option<T>>>, i: int, r: Seq<Option<T>>)
    requires
        0 <= i < m.len(),
    ensures
        edge_count(m.update(i, r)) as int == edge_count(m) as int - count_some(m[i]) as int
            + count_some(r) as int,
    decreases m.len(),
{
    let t = m.update(i, r);
    if i == m.len() - 1 {
        assert(t.drop_last() =~= m.drop_last());
    } else {
        assert(t.drop_last() =~= m.drop_last().update(i, r));
        lemma_edge_count_update(m.drop_last(), i, r);
    }
}

/// Setting one cell of a matrix changes the number of occupied cells by the
/// difference in occupation of that cell.
pub proof fn lemma_edge_count_set<T>(m: Seq<Seq<Option<T>>>, i: int, j: int, v: Option<T>)
    requires
        0 <= i < m.len(),
        0 <= j < m[i].len(),
    ensures
        edge_count(m.update(i, m[i].update(j, v))) as int == edge_count(m) as int - occupied(
            m[i][j],
        ) + occupied(v),
{
    lemma_edge_count_update(m, i, m[i].update(j, v));
    lemma_count_some_update(m[i], j, v);
}

/// The edge list of a matrix has one entry per filled cell.
pub proof fn lemma_edge_list_len<T>(m: Seq<Seq<Option<T>>>)
    ensures
        edge_list(m).len() == edge_count(m),
    decreases m.len(),
{
    if m.len() > 0 {
        lemma_edge_list_len(m.drop_last());
        lemma_some_indices_len(m.last());
    }
}

/// The occupied slots of `r`, each as its index and its value, in increasing order.
pub open spec fn weighted_row<T>(r: Seq<Option<T>>) -> Seq<(usize, T)>
    decreases r.len(),
{
    if r.len() == 0 {
        Seq::empty()
    } else {
        weighted_row(r.drop_last()) + match r.last() {
            Some(w) => seq![((r.len() - 1) as usize, w)],
            None => Seq::empty(),
        }
    }
}

/// The occupied cells of a matrix with their values, row by row, each row from left to right.
pub open spec fn weighted_cells<T>(m: Seq<Seq<Option<T>>>) -> Seq<((usize, usize), T)>
    decreases m.len(),
{
    if m.len() == 0 {
        Seq::empty()
    } else {
        weighted_cells(m.drop_last()) + weighted_row(m.last()).map_values(
            |p: (usize, T)| (((m.len() - 1) as usize, p.0), p.1),
        )
    }
}

/// The indices of the weighted slots are the occupied indices.
pub proof fn lemma_weighted_row_indices<T>(r: Seq<Option<T>>)
    ensures
        weighted_row(r).map_values(|p: (usize, T)| p.0) == some_indices(r),
    decreases r.len(),
{
    if r.len() > 0 {
        lemma_weighted_row_indices(r.drop_last());
        let rest = weighted_row(r.drop_last());
        let tail = match r.last() {
            Some(w) => seq![((r.len() - 1) as usize, w)],
            None => Seq::<(usize, T)>::empty(),
        };
        assert((rest + tail).map_values(|p: (usize, T)| p.0) =~= rest.map_values(|p: (usize, T)| p.0)
            + tail.map_values(|p: (usize, T)| p.0));
        assert(tail.map_values(|p: (usize, T)| p.0) =~= if r.last() is Some {
            seq![(r.len() - 1) as usize]
        } else {
            Seq::<usize>::empty()
        });
    }
}

/// The cells of the weighted cells are the occupied cells.
pub proof fn lemma_weighted_cells_keys<T>(m: Seq<Seq<Option<T>>>)
    ensures
        weighted_cells(m).map_values(|p: ((usize, usize), T)| p.0) == edge_list(m),
    decreases m.len(),
{
    if m.len() > 0 {
        lemma_weighted_cells_keys(m.drop_last());
        lemma_weighted_row_indices(m.last());
        let i = (m.len() - 1) as usize;
        let rest = weighted_cells(m.drop_last());
        let tail = weighted_row(m.last()).map_values(|p: (usize, T)| ((i, p.0), p.1));
        assert((rest + tail).map_values(|p: ((usize, usize), T)| p.0) =~= rest.map_values(
            |p: ((usize, usize), T)| p.0,
        ) + tail.map_values(|p: ((usize, usize), T)| p.0));
        assert(tail.map_values(|p: ((usize, usize), T)| p.0) =~= row_edges(i, m.last()));
    }
}

/// A prefix of a row gives the weighted slots of the prefix.
pub proof fn lemma_weighted_row_take<T>(s: Seq<Option<T>>, j: int)
    requires
        0 <= j < s.len(),
    ensures
        weighted_row(s.take(j + 1)) == weighted_row(s.take(j)) + match s[j] {
            Some(w) => seq![(j as usize, w)],
            None => Seq::<(usize, T)>::empty(),
        },
{
    assert(s.take(j + 1).drop_last() =~= s.take(j));
}

/// A prefix of the rows gives the weighted cells of the prefix.
pub proof fn lemma_weighted_cells_take<T>(m: Seq<Seq<Option<T>>>, i: int)
    requires
        0 <= i < m.len(),
    ensures
        weighted_cells(m.take(i + 1)) == weighted_cells(m.take(i)) + weighted_row(m[i]).map_values(
            |p: (usize, T)| ((i as usize, p.0), p.1),
        ),
{
    assert(m.take(i + 1).drop_last() =~= m.take(i));
}

} // verus!
