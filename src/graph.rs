//! Symmetric adjacency matrices built from a stream of edge bits, and the
//! Hamiltonian-cycle predicate over them.

use vstd::prelude::*;

verus! {

/// The fixed maximum number of nodes of a graph, and the length of a proof
/// path.
pub const GRAPH_SIZE: u16 = 2008;

/// Number of upper-triangle cells in rows `0..i` of a `g`-node matrix.
pub open spec fn row_offset(i: int, g: int) -> int
    decreases i,
{
    if i <= 0 {
        0
    } else {
        row_offset(i - 1, g) + g - i
    }
}

/// Number of candidate edges of a `g`-node graph.
pub open spec fn edge_count(g: int) -> int {
    row_offset(g, g)
}

/// Position of edge `{i, j}` (with `i < j`) in row-major upper-triangle order.
pub open spec fn edge_index(i: int, j: int, g: int) -> int {
    row_offset(i, g) + (j - i - 1)
}

/// Entry `(i, j)` of the symmetric matrix whose upper triangle is `bits`.
pub open spec fn sym_entry(bits: Seq<bool>, g: int, i: int, j: int) -> bool {
    if i < j {
        bits[edge_index(i, j, g)]
    } else if j < i {
        bits[edge_index(j, i, g)]
    } else {
        false
    }
}

/// The `g`-node symmetric matrix whose upper triangle, row by row, is `bits`.
pub open spec fn sym_graph(bits: Seq<bool>, g: int) -> Seq<Seq<bool>> {
    Seq::new(g as nat, |i: int| Seq::new(g as nat, |j: int| sym_entry(bits, g, i, j)))
}

/// View of an adjacency matrix.
pub open spec fn graph_view(m: &Vec<Vec<bool>>) -> Seq<Seq<bool>> {
    m@.map_values(|row: Vec<bool>| row@)
}

/// A square matrix, equal to its transpose, with a false diagonal.
pub open spec fn is_undirected(m: Seq<Seq<bool>>) -> bool {
    &&& forall|i: int| 0 <= i < m.len() ==> (#[trigger] m[i]).len() == m.len()
    &&& forall|i: int, j: int| 0 <= i < m.len() && 0 <= j < m.len() ==> m[i][j] == m[j][i]
    &&& forall|i: int| 0 <= i < m.len() ==> !m[i][i]
}

/// `p` visits each node at most once, and each step follows an edge.
pub open spec fn is_simple_path(m: Seq<Seq<bool>>, p: Seq<u16>) -> bool {
    &&& forall|k: int| 0 <= k < p.len() ==> (#[trigger] p[k] as int) < m.len()
    &&& forall|a: int, b: int| 0 <= a < b < p.len() ==> p[a] != p[b]
    &&& forall|k: int| 0 <= k < p.len() - 1 ==> m[p[k] as int][#[trigger] p[k + 1] as int]
}

/// `p` starts at node 0, visits every node of `m` exactly once, and its last
/// node is adjacent to node 0.
pub open spec fn is_hamiltonian_cycle(m: Seq<Seq<bool>>, p: Seq<u16>) -> bool {
    &&& p.len() == m.len()
    &&& p.len() > 0
    &&& p[0] == 0
    &&& is_simple_path(m, p)
    &&& m[p[p.len() - 1] as int][p[0] as int]
}

pub proof fn lemma_row_offset_grows(i: int, k: int, g: int)
    requires
        0 <= i <= k <= g,
    ensures
        row_offset(i, g) <= row_offset(k, g),
    decreases k - i,
{
    if i < k {
        lemma_row_offset_grows(i, k - 1, g);
    }
}

pub proof fn lemma_row_offset_bound(i: int, g: int)
    requires
        0 <= i <= g,
    ensures
        0 <= row_offset(i, g) <= i * g,
    decreases i,
{
    if i > 0 {
        lemma_row_offset_bound(i - 1, g);
        assert((i - 1) * g + g == i * g) by (nonlinear_arith);
    }
}

pub proof fn lemma_edge_index_in_range(i: int, j: int, g: int)
    requires
        0 <= i < j < g,
    ensures
        0 <= edge_index(i, j, g) < edge_count(g),
{
    lemma_row_offset_bound(i, g);
    lemma_row_offset_grows(i + 1, g, g);
}

/// Start of each row's upper-triangle cells: entry `i` is `row_offset(i, g)`,
/// for `i` in `0..=g`.
pub fn row_offsets(g: u16) -> (r: Vec<usize>)
    requires
        g <= GRAPH_SIZE,
    ensures
        r@.len() == g + 1,
        forall|i: int| 0 <= i <= g ==> r@[i] == row_offset(i, g as int),
{
    let mut r: Vec<usize> = Vec::new();
    r.push(0);
    let mut i: usize = 0;
    while i < g as usize
        invariant
            g <= GRAPH_SIZE,
            i <= g,
            r@.len() == i + 1,
            forall|k: int| 0 <= k <= i ==> r@[k] == row_offset(k, g as int),
        decreases g - i,
    {
        proof {
            lemma_row_offset_bound(i as int, g as int);
            assert(i * g <= 2008 * 2008) by (nonlinear_arith)
                requires
                    i <= 2008,
                    g <= 2008,
            ;
        }
        let next = r[i] + (g as usize - i - 1);
        r.push(next);
        i = i + 1;
    }
    r
}

/// The `g`-node symmetric matrix whose upper triangle, row by row, is `bits`.
pub fn build_graph(bits: &Vec<bool>, g: u16) -> (r: Vec<Vec<bool>>)
    requires
        g <= GRAPH_SIZE,
        bits@.len() == edge_count(g as int),
    ensures
        graph_view(&r) == sym_graph(bits@, g as int),
{
    let offs = row_offsets(g);
    let n: usize = g as usize;
    let mut m: Vec<Vec<bool>> = Vec::new();
    let mut i: usize = 0;
    while i < n
        invariant
            n == g,
            g <= GRAPH_SIZE,
            bits@.len() == edge_count(g as int),
            offs@.len() == g + 1,
            forall|k: int| 0 <= k <= g ==> offs@[k] == row_offset(k, g as int),
            i <= n,
            m@.len() == i,
            forall|a: int| 0 <= a < i ==> (#[trigger] m@[a])@ == sym_graph(bits@, g as int)[a],
        decreases n - i,
    {
        let mut row: Vec<bool> = Vec::new();
        let mut j: usize = 0;
        while j < n
            invariant
                n == g,
                g <= GRAPH_SIZE,
                bits@.len() == edge_count(g as int),
                offs@.len() == g + 1,
                forall|k: int| 0 <= k <= g ==> offs@[k] == row_offset(k, g as int),
                i < n,
                j <= n,
                row@.len() == j,
                forall|b: int| 0 <= b < j ==> row@[b] == sym_entry(bits@, g as int, i as int, b),
            decreases n - j,
        {
            let e: bool = if i < j {
                proof {
                    lemma_edge_index_in_range(i as int, j as int, g as int);
                }
                bits[offs[i] + (j - i - 1)]
            } else if j < i {
                proof {
                    lemma_edge_index_in_range(j as int, i as int, g as int);
                }
                bits[offs[j] + (i - j - 1)]
            } else {
                false
            };
            row.push(e);
            j = j + 1;
        }
        assert(row@ =~= sym_graph(bits@, g as int)[i as int]);
        m.push(row);
        i = i + 1;
    }
    assert(graph_view(&m) =~= sym_graph(bits@, g as int));
    m
}

pub proof fn lemma_sym_graph_undirected(bits: Seq<bool>, g: int)
    requires
        g >= 0,
    ensures
        is_undirected(sym_graph(bits, g)),
{
}

} // verus!

verus! {

/// Every row has one entry per node.
pub open spec fn is_square(m: Seq<Seq<bool>>) -> bool {
    forall|i: int| 0 <= i < m.len() ==> (#[trigger] m[i]).len() == m.len()
}

pub proof fn lemma_sym_graph_square(bits: Seq<bool>, g: int)
    requires
        g >= 0,
    ensures
        is_square(sym_graph(bits, g)),
        sym_graph(bits, g).len() == g,
{
}

} // verus!

verus! {

/// The first Hamiltonian cycle of `m` that extends the path `p`, in the
/// depth-first order that tries candidates for the next node in ascending
/// order, starting with candidate `v`; `None` when there is none.
pub open spec fn first_extension(m: Seq<Seq<bool>>, p: Seq<u16>, v: int) -> Option<Seq<u16>>
    decreases m.len() - p.len(), m.len() - v,
{
    if p.len() >= m.len() {
        if p.len() == m.len() && p.len() > 0 && m[p.last() as int][p[0] as int] {
            Some(p)
        } else {
            None
        }
    } else if v >= m.len() || v < 0 {
        None
    } else if m[p.last() as int][v] && !p.contains(v as u16) {
        match first_extension(m, p.push(v as u16), 0) {
            Some(c) => Some(c),
            None => first_extension(m, p, v + 1),
        }
    } else {
        first_extension(m, p, v + 1)
    }
}

/// The first Hamiltonian cycle of `m` from node 0, candidates tried in
/// ascending order; `None` when `m` has none.
pub open spec fn first_cycle(m: Seq<Seq<bool>>) -> Option<Seq<u16>> {
    first_extension(m, seq![0u16], 0)
}

/// How a bounded search ended.
#[derive(PartialEq, Eq, Structural, Clone, Copy, Debug)]
pub enum SearchOutcome {
    /// A cycle was found.
    Found,
    /// Every candidate was tried and none gave a cycle.
    Exhausted,
    /// The bailout passed; the search stopped without a result.
    Aborted,
}

} // verus!

verus! {

/// What the search order returns is a Hamiltonian cycle.
pub proof fn lemma_first_extension_sound(m: Seq<Seq<bool>>, p: Seq<u16>, v: int)
    requires
        is_square(m),
        m.len() <= GRAPH_SIZE,
        p.len() >= 1,
        p[0] == 0,
        is_simple_path(m, p),
    ensures
        first_extension(m, p, v) matches Some(c) ==> is_hamiltonian_cycle(m, c),
    decreases m.len() - p.len(), m.len() - v,
{
    if p.len() >= m.len() {
    } else if v >= m.len() || v < 0 {
    } else if m[p.last() as int][v] && !p.contains(v as u16) {
        let q = p.push(v as u16);
        assert forall|a: int, b: int| 0 <= a < b < q.len() implies q[a] != q[b] by {
            if b < p.len() {
                assert(q[a] == p[a] && q[b] == p[b]);
            } else {
                assert(q[a] == p[a]);
                assert(p.contains(p[a]));
            }
        }
        assert forall|k: int| 0 <= k < q.len() - 1 implies m[q[k] as int][#[trigger] q[k + 1] as int] by {
            if k + 1 < p.len() {
                assert(q[k] == p[k] && q[k + 1] == p[k + 1]);
            }
        }
        lemma_first_extension_sound(m, q, 0);
        lemma_first_extension_sound(m, p, v + 1);
    } else {
        lemma_first_extension_sound(m, p, v + 1);
    }
}

/// The search order misses no cycle: when a Hamiltonian cycle `c` extends
/// `p` and its next node is not below `v`, the search from `v` finds one.
pub proof fn lemma_first_extension_complete(m: Seq<Seq<bool>>, p: Seq<u16>, v: int, c: Seq<u16>)
    requires
        is_square(m),
        m.len() <= GRAPH_SIZE,
        is_hamiltonian_cycle(m, c),
        1 <= p.len() <= c.len(),
        p == c.subrange(0, p.len() as int),
        0 <= v,
        p.len() < m.len() ==> v <= c[p.len() as int],
    ensures
        first_extension(m, p, v) is Some,
    decreases m.len() - p.len(), m.len() - v,
{
    if p.len() == m.len() {
        assert(p =~= c);
    } else {
        let x = c[p.len() as int];
        assert(p.last() == c[p.len() - 1]);
        if v < x {
            lemma_first_extension_complete(m, p, v + 1, c);
        } else {
            assert(v == x);
            let k = p.len() - 1;
            assert(m[c[k] as int][c[k + 1] as int]);
            assert(m[p.last() as int][v]);
            assert(!p.contains(v as u16)) by {
                if p.contains(v as u16) {
                    let i = choose|i: int| 0 <= i < p.len() && p[i] == v as u16;
                    assert(c[i] == c[p.len() as int]);
                }
            }
            let q = p.push(v as u16);
            assert(q =~= c.subrange(0, q.len() as int));
            lemma_first_extension_complete(m, q, 0, c);
        }
    }
}

/// The search order finds a cycle exactly when the graph has one.
pub proof fn lemma_first_cycle_iff_cycle(m: Seq<Seq<bool>>)
    requires
        is_square(m),
        1 <= m.len() <= GRAPH_SIZE,
    ensures
        first_cycle(m) is Some <==> exists|c: Seq<u16>| is_hamiltonian_cycle(m, c),
        first_cycle(m) matches Some(c) ==> is_hamiltonian_cycle(m, c),
{
    lemma_first_extension_sound(m, seq![0u16], 0);
    if exists|c: Seq<u16>| is_hamiltonian_cycle(m, c) {
        let c = choose|c: Seq<u16>| is_hamiltonian_cycle(m, c);
        assert(seq![0u16] =~= c.subrange(0, 1));
        lemma_first_extension_complete(m, seq![0u16], 0, c);
    }
}

/// A search that ends exhausted has missed no cycle: no Hamiltonian cycle
/// extends the prefix it was given.
pub proof fn lemma_exhausted_means_no_cycle(m: Seq<Seq<bool>>, p: Seq<u16>)
    requires
        is_square(m),
        m.len() <= GRAPH_SIZE,
        1 <= p.len() <= m.len(),
        first_extension(m, p, 0) is None,
    ensures
        !exists|c: Seq<u16>| is_hamiltonian_cycle(m, c) && p == c.subrange(0, p.len() as int),
{
    if exists|c: Seq<u16>| is_hamiltonian_cycle(m, c) && p == c.subrange(0, p.len() as int) {
        let c = choose|c: Seq<u16>| is_hamiltonian_cycle(m, c) && p == c.subrange(0, p.len() as int);
        lemma_first_extension_complete(m, p, 0, c);
    }
}

} // verus!
