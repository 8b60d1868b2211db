//! Graph generation from a seed and the bounded Hamiltonian-cycle searches.

use vstd::prelude::*;
use crate::clock::{bailout_passed, now};
use crate::codec::{
    all_hex_digits, be_value, hex_bytes, hex_decode, hex_value, is_hex_text, read_be, read_hex,
};
use crate::graph::{
    build_graph, edge_count, first_cycle, lemma_first_cycle_iff_cycle, lemma_exhausted_means_no_cycle, first_extension, SearchOutcome, graph_view, is_hamiltonian_cycle, is_simple_path, is_square,
    is_undirected, lemma_row_offset_bound, lemma_sym_graph_square, lemma_sym_graph_undirected,
    row_offsets, sym_graph, GRAPH_SIZE,
};
use crate::rng::{draw_budget, draws_of, first_draws, mt64_prefix, mt64_word, mt64_words, uniform_draws};
use vstd::string::StrSliceExecFns;

verus! {

/// A 256-bit graph hash, held as its 32 bytes, most significant first.
pub struct GraphHash {
    bytes: Vec<u8>,
}

impl GraphHash {
    /// The hash's bytes, most significant first.
    pub closed spec fn be_bytes(&self) -> Seq<u8> {
        self.bytes@
    }

    pub open spec fn wf(&self) -> bool {
        self.be_bytes().len() == 32
    }

    /// The hash whose big-endian bytes are `b`, if there are 32 of them.
    pub fn from_be_bytes(b: Vec<u8>) -> (r: Option<GraphHash>)
        ensures
            r is Some <==> b@.len() == 32,
            r is Some ==> r->Some_0.be_bytes() == b@ && r->Some_0.wf(),
    {
        if b.len() == 32 {
            Some(GraphHash { bytes: b })
        } else {
            None
        }
    }
}

/// Seed of the first graph family: the low 64 bits of the hash.
pub open spec fn seed_v2(h: Seq<u8>) -> u64 {
    be_value(h.subrange(24, 32)) as u64
}

/// Node count of the first graph family: 2000 plus the top 32 bits of the
/// hash modulo 8.
pub open spec fn grid_size_v2(h: Seq<u8>) -> u16 {
    (2000 + be_value(h.subrange(0, 4)) % 8) as u16
}

/// Seed of the second graph family, read from a hash's hex text: the last
/// eight bytes, most significant first (the first eight of the reversed
/// bytes, read little-endian).
pub open spec fn seed_of_hex(s: Seq<char>) -> u64 {
    let b = hex_bytes(s);
    be_value(b.subrange(b.len() - 8, b.len() as int)) as u64
}

/// Bit `k` of the first family's edge stream: each generator word gives
/// its low 32 bits, most significant first.
pub open spec fn stream_bit(seed: u64, k: nat) -> bool {
    ((mt64_word(seed, k / 32) & 0xffff_ffffu64) >> ((31 - k % 32) as u64)) & 1u64 == 1u64
}

/// Upper-triangle edge bits of the first family's `g`-node graph.
pub open spec fn bits_v2(seed: u64, g: int) -> Seq<bool> {
    Seq::new(edge_count(g) as nat, |k: int| stream_bit(seed, k as nat))
}

/// The first family's `g`-node graph for `seed`.
pub open spec fn graph_v2(seed: u64, g: int) -> Seq<Seq<bool>> {
    sym_graph(bits_v2(seed, g), g)
}

/// Edge bits of the second family: a draw below the per-mille density
/// gives an edge.
pub open spec fn bits_v3(draws: Seq<u64>, percentage_x10: u16) -> Seq<bool> {
    Seq::new(draws.len(), |k: int| draws[k] < percentage_x10 as u64)
}

/// `m` is the second family's `g`-node graph for `seed` at the given density.
pub open spec fn is_graph_v3(m: Seq<Seq<bool>>, seed: u64, g: int, percentage_x10: u16) -> bool {
    exists|d: Seq<u64>|
        #[trigger] first_draws(seed, edge_count(g) as nat, d) && m == sym_graph(
            bits_v3(d, percentage_x10),
            g,
        )
}

/// `p` is a Hamiltonian cycle of the second family's graph for the seed read
/// from `hash_hex`.
pub open spec fn is_cycle_v3(hash_hex: Seq<char>, g: int, percentage_x10: u16, p: Seq<u16>) -> bool {
    exists|m: Seq<Seq<bool>>|
        #[trigger] is_graph_v3(m, seed_of_hex(hash_hex), g, percentage_x10)
            && is_hamiltonian_cycle(m, p)
}

/// `p` is the first Hamiltonian cycle, in ascending candidate order, of the
/// second family's graph for the seed read from `hash_hex`.
pub open spec fn is_first_cycle_v3(hash_hex: Seq<char>, g: int, percentage_x10: u16, p: Seq<u16>) -> bool {
    exists|m: Seq<Seq<bool>>|
        #[trigger] is_graph_v3(m, seed_of_hex(hash_hex), g, percentage_x10) && first_cycle(m) == Some(p)
}

/// Solver settings: the bailout of the first family's search.
pub struct HCGraphUtil {
    vdf_bailout: u64,
}

impl HCGraphUtil {
    /// Bailout of the first family's search, in milliseconds.
    pub closed spec fn bailout(&self) -> u64 {
        self.vdf_bailout
    }

    /// A solver with the given bailout, or 1000 ms when none is given.
    pub fn new(vdf_bailout: Option<u64>) -> (r: Self)
        ensures
            r.bailout() == match vdf_bailout {
                Some(t) => t,
                None => 1000u64,
            },
    {
        let bailout_timer: u64 = match vdf_bailout {
            Some(timer) => timer,
            None => 1000,
        };
        HCGraphUtil { vdf_bailout: bailout_timer }
    }

    /// Bailout of the first family's search, in milliseconds.
    pub fn vdf_bailout(&self) -> (r: u64)
        ensures
            r == self.bailout(),
    {
        self.vdf_bailout
    }

    /// Value of a text of one to sixteen hex digits.
    pub fn hex_to_u64(&self, hex_string: &str) -> (r: u64)
        requires
            0 < hex_string@.len() <= 16,
            all_hex_digits(hex_string@),
        ensures
            r as nat == hex_value(hex_string@),
    {
        read_hex(hex_string)
    }

    /// Low 64 bits of the hash.
    pub fn extract_seed_from_hash(&self, hash: &GraphHash) -> (r: u64)
        requires
            hash.wf(),
        ensures
            r == seed_v2(hash.be_bytes()),
    {
        read_be(&hash.bytes, 24, 8)
    }

    /// Seed of the second family from a hash's hex text.
    pub fn extract_seed_from_hash_hex(&self, hash_hex: &str) -> (r: u64)
        requires
            is_hex_text(hash_hex@),
            hash_hex@.len() >= 16,
        ensures
            r == seed_of_hex(hash_hex@),
    {
        match hex_decode(hash_hex) {
            Ok(bytes) => {
                let n = bytes.len();
                read_be(&bytes, n - 8, 8)
            },
            Err(_) => 0,
        }
    }

    /// Node count of the first family's graph for a hash.
    pub fn get_grid_size_v2(&self, hash: &GraphHash) -> (r: u16)
        requires
            hash.wf(),
        ensures
            r == grid_size_v2(hash.be_bytes()),
            2000 <= r < GRAPH_SIZE,
    {
        let segment = read_be(&hash.bytes, 0, 4);
        (2000 + segment % 8) as u16
    }

    /// The first family's graph: one bit of the seeded Mersenne Twister
    /// stream per candidate edge.
    pub fn generate_graph_v2(&self, hash: &GraphHash, grid_size: u16) -> (r: Vec<Vec<bool>>)
        requires
            hash.wf(),
            grid_size <= GRAPH_SIZE,
        ensures
            graph_view(&r) == graph_v2(seed_v2(hash.be_bytes()), grid_size as int),
    {
        let seed = self.extract_seed_from_hash(hash);
        generate_graph_v2_from_seed(seed, grid_size)
    }

    /// The second family's graph: one uniform draw in `[0, 1000)` per
    /// candidate edge, an edge where the draw is below `percentage_x10`.
    /// `None` when the generator's words run out (see `uniform_draws`).
    pub fn generate_graph_v3_from_seed(&self, seed: u64, grid_size: u16, percentage_x10: u16) -> (r:
        Option<Vec<Vec<bool>>>)
        requires
            grid_size <= GRAPH_SIZE,
        ensures
            r is Some ==> is_graph_v3(graph_view(&r->Some_0), seed, grid_size as int, percentage_x10),
            r is Some ==> is_undirected(graph_view(&r->Some_0)),
            r is None <==> draws_of(mt64_prefix(seed, draw_budget(edge_count(grid_size as int) as nat))).len()
                < edge_count(grid_size as int),
    {
        let offs = row_offsets(grid_size);
        let total = offs[grid_size as usize];
        proof {
            lemma_row_offset_bound(grid_size as int, grid_size as int);
            assert(grid_size * grid_size <= 2008 * 2008) by (nonlinear_arith)
                requires
                    grid_size <= 2008,
            ;
        }
        let range: u64 = 1000;
        let threshold: u64 = (percentage_x10 as u64 * range) / 1000;
        assert(threshold == percentage_x10 as u64);
        let draws = match uniform_draws(seed, total) {
            Some(d) => d,
            None => {
                return None;
            },
        };
        let mut bits: Vec<bool> = Vec::new();
        let mut k: usize = 0;
        while k < total
            invariant
                total == draws@.len(),
                threshold == percentage_x10 as u64,
                k <= total,
                bits@ == bits_v3(draws@, percentage_x10).subrange(0, k as int),
            decreases total - k,
        {
            bits.push(draws[k] < threshold);
            k = k + 1;
            assert(bits@ =~= bits_v3(draws@, percentage_x10).subrange(0, k as int));
        }
        assert(bits@ =~= bits_v3(draws@, percentage_x10));
        let graph = build_graph(&bits, grid_size);
        proof {
            lemma_sym_graph_undirected(bits@, grid_size as int);
        }
        assert(first_draws(seed, edge_count(grid_size as int) as nat, draws@));
        Some(graph)
    }
}

/// The first family's `grid_size`-node graph for `seed`.
pub fn generate_graph_v2_from_seed(seed: u64, grid_size: u16) -> (r: Vec<Vec<bool>>)
    requires
        grid_size <= GRAPH_SIZE,
    ensures
        graph_view(&r) == graph_v2(seed, grid_size as int),
        is_undirected(graph_view(&r)),
{
    let offs = row_offsets(grid_size);
    let total = offs[grid_size as usize];
    proof {
        lemma_row_offset_bound(grid_size as int, grid_size as int);
        assert(grid_size * grid_size <= 2008 * 2008) by (nonlinear_arith)
            requires
                grid_size <= 2008,
        ;
    }
    let n_words: usize = (total + 31) / 32;
    let words = mt64_words(seed, n_words);
    let mut bits: Vec<bool> = Vec::new();
    let mut k: usize = 0;
    while k < total
        invariant
            total == edge_count(grid_size as int),
            total <= 2008 * 2008,
            n_words == (total + 31) / 32,
            words@.len() == n_words,
            forall|i: int| 0 <= i < n_words ==> words@[i] == mt64_word(seed, i as nat),
            k <= total,
            bits@.len() == k,
            forall|b: int| 0 <= b < k ==> bits@[b] == stream_bit(seed, b as nat),
        decreases total - k,
    {
        let w = words[k / 32];
        let shift: u64 = (31 - k % 32) as u64;
        let bit = ((w & 0xffff_ffffu64) >> shift) & 1u64 == 1u64;
        bits.push(bit);
        k = k + 1;
    }
    assert(bits@ =~= bits_v2(seed, grid_size as int));
    proof {
        lemma_sym_graph_undirected(bits@, grid_size as int);
    }
    build_graph(&bits, grid_size)
}

} // verus!

verus! {

impl HCGraphUtil {
    /// Whether node `v` can extend the path prefix `path[..pos]`: it is
    /// adjacent to `path[pos - 1]` and not yet in the prefix.
    pub fn is_safe(&self, v: u16, graph: &Vec<Vec<bool>>, path: &Vec<u16>, pos: usize) -> (r: bool)
        requires
            is_square(graph_view(graph)),
            0 < pos <= path@.len(),
            (path@[pos - 1] as int) < graph@.len(),
            (v as int) < graph@.len(),
        ensures
            r == (graph_view(graph)[path@[pos - 1] as int][v as int] && forall|i: int|
                0 <= i < pos ==> path@[i] != v),
    {
        assert(graph_view(graph)[path@[pos - 1] as int] == graph@[path@[pos - 1] as int]@);
        if !graph[path[pos - 1] as usize][v as usize] {
            return false;
        }
        let mut i: usize = 0;
        while i < pos
            invariant
                0 < pos <= path@.len(),
                i <= pos,
                forall|k: int| 0 <= k < i ==> path@[k] != v,
            decreases pos - i,
        {
            if path[i] == v {
                return false;
            }
            i = i + 1;
        }
        true
    }

    /// Backtracking search that fills `path[pos..]`, trying candidates in
    /// ascending order. `Found` leaves the first cycle that extends the
    /// prefix in `path`; `Exhausted` means no cycle extends it; `Aborted`
    /// means the bailout passed. Unless a cycle is found, `path` is left as
    /// it was.
    pub fn hamiltonian_cycle_util(
        &self,
        graph: &Vec<Vec<bool>>,
        path: &mut Vec<u16>,
        pos: usize,
        start: &std::time::Instant,
    ) -> (r: SearchOutcome)
        requires
            is_square(graph_view(graph)),
            graph@.len() <= GRAPH_SIZE,
            old(path)@.len() == graph@.len(),
            1 <= pos <= graph@.len(),
            old(path)@[0] == 0,
            is_simple_path(graph_view(graph), old(path)@.subrange(0, pos as int)),
            forall|k: int| pos <= k < old(path)@.len() ==> old(path)@[k] == u16::MAX,
        ensures
            final(path)@.len() == old(path)@.len(),
            r == SearchOutcome::Found ==> is_hamiltonian_cycle(graph_view(graph), final(path)@)
                && first_extension(graph_view(graph), old(path)@.subrange(0, pos as int), 0)
                == Some(final(path)@),
            r != SearchOutcome::Found ==> final(path)@ == old(path)@,
            r == SearchOutcome::Exhausted ==> first_extension(
                graph_view(graph),
                old(path)@.subrange(0, pos as int),
                0,
            ) is None,
            r == SearchOutcome::Exhausted ==> !exists|c: Seq<u16>|
                is_hamiltonian_cycle(graph_view(graph), c) && old(path)@.subrange(0, pos as int)
                    == c.subrange(0, pos as int),
        decreases graph@.len() - pos,
    {
        let ghost m = graph_view(graph);
        let ghost p = path@.subrange(0, pos as int);
        if bailout_passed(start, self.vdf_bailout) {
            return SearchOutcome::Aborted;
        }
        let n = graph.len();
        if pos == n {
            assert(path@.subrange(0, pos as int) =~= path@);
            assert(path@[pos - 1] < n);
            assert(m[path@[pos - 1] as int] == graph@[path@[pos - 1] as int]@);
            if graph[path[pos - 1] as usize][path[0] as usize] {
                return SearchOutcome::Found;
            }
            proof {
                lemma_exhausted_means_no_cycle(m, p);
            }
            return SearchOutcome::Exhausted;
        }
        assert(p.contains(0u16)) by {
            assert(p[0] == 0u16);
        }
        assert(first_extension(m, p, 0) == first_extension(m, p, 1));
        let mut v: u16 = 1;
        while (v as usize) < n
            invariant
                m == graph_view(graph),
                is_square(m),
                n == graph@.len(),
                n <= GRAPH_SIZE,
                1 <= pos < n,
                1 <= v <= n,
                path@ == old(path)@,
                old(path)@.len() == n,
                p == old(path)@.subrange(0, pos as int),
                path@[0] == 0,
                is_simple_path(m, p),
                forall|k: int| pos <= k < n ==> old(path)@[k] == u16::MAX,
                first_extension(m, p, 0) == first_extension(m, p, v as int),
            decreases n - v,
        {
            assert(path@[pos - 1] == p[pos - 1]);
            let safe = self.is_safe(v, graph, path, pos);
            proof {
                assert(p.last() == path@[pos - 1]);
                if safe {
                    assert forall|i: int| 0 <= i < p.len() implies p[i] != v by {
                        assert(p[i] == path@[i]);
                    }
                    assert(!p.contains(v));
                } else if m[p.last() as int][v as int] {
                    let i = choose|i: int| 0 <= i < pos && path@[i] == v;
                    assert(p[i] == v);
                    assert(p.contains(v));
                }
                assert((v as int) as u16 == v);
            }
            if safe {
                path.set(pos, v);
                proof {
                    let q = path@.subrange(0, pos + 1);
                    assert(q =~= p.push(v));
                    assert forall|a: int, b: int| 0 <= a < b < q.len() implies q[a] != q[b] by {
                        if b < pos {
                            assert(q[a] == p[a] && q[b] == p[b]);
                        } else {
                            assert(q[a] == p[a]);
                        }
                    }
                    assert forall|k: int| 0 <= k < q.len() - 1 implies m[q[k] as int][#[trigger] q[k
                        + 1] as int] by {
                        if k + 1 < pos {
                            assert(q[k] == p[k] && q[k + 1] == p[k + 1]);
                        } else {
                            assert(q[k] == p[pos - 1]);
                        }
                    }
                }
                let child = self.hamiltonian_cycle_util(graph, path, pos + 1, start);
                if child == SearchOutcome::Found {
                    return SearchOutcome::Found;
                }
                path.set(pos, u16::MAX);
                assert(path@ =~= old(path)@);
                if child == SearchOutcome::Aborted {
                    return SearchOutcome::Aborted;
                }
            }
            v = v + 1;
        }
        proof {
            lemma_exhausted_means_no_cycle(m, p);
        }
        SearchOutcome::Exhausted
    }

    /// Searches `graph` for a Hamiltonian cycle from node 0 within the
    /// solver's bailout. `Found` comes with the first cycle in ascending
    /// candidate order; `Exhausted` (graph has no cycle) and `Aborted`
    /// (bailout passed) come with an empty path.
    pub fn solve_cycle_v2(&self, graph: &Vec<Vec<bool>>) -> (r: (SearchOutcome, Vec<u16>))
        requires
            is_square(graph_view(graph)),
            1 <= graph@.len() <= GRAPH_SIZE,
        ensures
            r.0 == SearchOutcome::Found ==> is_hamiltonian_cycle(graph_view(graph), r.1@)
                && first_cycle(graph_view(graph)) == Some(r.1@),
            r.0 != SearchOutcome::Found ==> r.1@.len() == 0,
            r.0 == SearchOutcome::Exhausted ==> !exists|c: Seq<u16>|
                is_hamiltonian_cycle(graph_view(graph), c),
    {
        let mut path: Vec<u16> = vec![u16::MAX; graph.len()];
        path.set(0, 0);
        let start = now();
        assert(path@.subrange(0, 1) =~= seq![0u16]);
        let outcome = self.hamiltonian_cycle_util(graph, &mut path, 1, &start);
        proof {
            lemma_first_cycle_iff_cycle(graph_view(graph));
        }
        if outcome != SearchOutcome::Found {
            return (outcome, Vec::new());
        }
        (outcome, path)
    }

    /// The first family's search with its outcome: sizes and generates the
    /// graph from the hash, then searches it within the solver's bailout.
    pub fn search_hamiltonian_cycle_v2(&self, graph_hash: &GraphHash) -> (r: (SearchOutcome, Vec<u16>))
        requires
            graph_hash.wf(),
        ensures
            r.0 == SearchOutcome::Found ==> is_hamiltonian_cycle(
                graph_v2(seed_v2(graph_hash.be_bytes()), grid_size_v2(graph_hash.be_bytes()) as int),
                r.1@,
            ) && first_cycle(
                graph_v2(seed_v2(graph_hash.be_bytes()), grid_size_v2(graph_hash.be_bytes()) as int),
            ) == Some(r.1@),
            r.0 != SearchOutcome::Found ==> r.1@.len() == 0,
            r.0 == SearchOutcome::Exhausted ==> !exists|c: Seq<u16>|
                is_hamiltonian_cycle(
                    graph_v2(seed_v2(graph_hash.be_bytes()), grid_size_v2(graph_hash.be_bytes()) as int),
                    c,
                ),
    {
        let grid_size = self.get_grid_size_v2(graph_hash);
        let graph = self.generate_graph_v2(graph_hash, grid_size);
        proof {
            lemma_sym_graph_square(
                bits_v2(seed_v2(graph_hash.be_bytes()), grid_size as int),
                grid_size as int,
            );
        }
        self.solve_cycle_v2(&graph)
    }

    /// The first family's search: sizes and generates the graph from the
    /// hash, then looks for a cycle within the solver's bailout.
    pub fn find_hamiltonian_cycle_v2(&self, graph_hash: GraphHash) -> (r: Vec<u16>)
        requires
            graph_hash.wf(),
        ensures
            r@.len() == 0 || is_hamiltonian_cycle(
                graph_v2(seed_v2(graph_hash.be_bytes()), grid_size_v2(graph_hash.be_bytes()) as int),
                r@,
            ),
            r@.len() == 0 || first_cycle(
                graph_v2(seed_v2(graph_hash.be_bytes()), grid_size_v2(graph_hash.be_bytes()) as int),
            ) == Some(r@),
    {
        let (_, path) = self.search_hamiltonian_cycle_v2(&graph_hash);
        path
    }
}

} // verus!

verus! {

impl HCGraphUtil {
    /// Worker grid size: 1892 plus the value of the first eight hex digits
    /// modulo 28.
    pub fn get_worker_grid_size(&self, hash_hex: &str) -> (r: u16)
        requires
            hash_hex@.len() >= 8,
            all_hex_digits(hash_hex@.subrange(0, 8)),
        ensures
            r as nat == 1892 + hex_value(hash_hex@.subrange(0, 8)) % 28,
            1892 <= r < 1920,
    {
        let segment = hash_hex.substring_char(0, 8);
        let grid_size: u64 = self.hex_to_u64(segment);
        let min_grid_size: u64 = 1892;
        let max_grid_size: u64 = 1920;
        let grid_size_final = min_grid_size + (grid_size % (max_grid_size - min_grid_size));
        grid_size_final as u16
    }

    /// Queen grid size: what the worker grid leaves of `GRAPH_SIZE`.
    pub fn get_queen_bee_grid_size(&self, worker_size: u16) -> (r: u16)
        requires
            worker_size <= GRAPH_SIZE,
        ensures
            r == GRAPH_SIZE - worker_size,
    {
        GRAPH_SIZE - worker_size
    }

    /// Depth-first step of the second family's search: visits `current`,
    /// then its unvisited neighbours in ascending order. `Found` leaves in
    /// `path` the first cycle that extends the path with `current`;
    /// `Exhausted` means no cycle extends it; `Aborted` means the timeout
    /// passed. Unless a cycle is found, the path and the visited marks are
    /// as they were.
    pub fn dfs_v3(
        &self,
        current: u16,
        visited: &mut Vec<bool>,
        path: &mut Vec<u16>,
        edges: &Vec<Vec<bool>>,
        start: &std::time::Instant,
        timeout_ms: u64,
        graph_size: u16,
    ) -> (r: SearchOutcome)
        requires
            is_square(graph_view(edges)),
            edges@.len() == graph_size,
            graph_size <= GRAPH_SIZE,
            old(visited)@.len() == graph_size,
            current < graph_size,
            !old(visited)@[current as int],
            old(path)@.len() < graph_size,
            is_simple_path(graph_view(edges), old(path)@),
            old(path)@.len() == 0 ==> current == 0,
            old(path)@.len() > 0 ==> old(path)@[0] == 0 && graph_view(edges)[old(path)@.last() as int][current as int],
            forall|v: int| 0 <= v < graph_size ==> (old(visited)@[v] <==> old(path)@.contains(v as u16)),
        ensures
            r == SearchOutcome::Found ==> is_hamiltonian_cycle(graph_view(edges), final(path)@)
                && first_extension(graph_view(edges), old(path)@.push(current), 0) == Some(final(path)@),
            r != SearchOutcome::Found ==> final(path)@ == old(path)@ && final(visited)@ == old(visited)@,
            r == SearchOutcome::Exhausted ==> first_extension(graph_view(edges), old(path)@.push(current), 0) is None,
        decreases graph_size - old(path)@.len(),
    {
        let ghost m = graph_view(edges);
        let ghost p0 = path@;
        let ghost v0 = visited@;
        if bailout_passed(start, timeout_ms) {
            return SearchOutcome::Aborted;
        }
        path.push(current);
        visited.set(current as usize, true);
        let ghost pp = path@;
        proof {
            let p = path@;
            assert(p =~= p0.push(current));
            assert(!p0.contains(current));
            assert forall|a: int, b: int| 0 <= a < b < p.len() implies p[a] != p[b] by {
                if b < p0.len() {
                    assert(p[a] == p0[a] && p[b] == p0[b]);
                } else {
                    assert(p[a] == p0[a]);
                }
            }
            assert forall|k: int| 0 <= k < p.len() - 1 implies m[p[k] as int][#[trigger] p[k + 1] as int] by {
                if k + 1 < p0.len() {
                    assert(p[k] == p0[k] && p[k + 1] == p0[k + 1]);
                } else {
                    assert(p[k] == p0.last());
                }
            }
            assert forall|v: int| 0 <= v < graph_size implies (visited@[v] <==> path@.contains(v as u16)) by {
                if v == current {
                    assert(path@[p0.len() as int] == current);
                } else {
                    if p0.contains(v as u16) {
                        let i = choose|i: int| 0 <= i < p0.len() && p0[i] == v as u16;
                        assert(path@[i] == v as u16);
                    }
                    if path@.contains(v as u16) {
                        let i = choose|i: int| 0 <= i < path@.len() && path@[i] == v as u16;
                        assert(p0[i] == v as u16);
                    }
                }
            }
            assert(p[0] == 0);
        }
        assert(m[current as int] == edges@[current as int]@);
        if path.len() == graph_size as usize && edges[current as usize][0] {
            return SearchOutcome::Found;
        }
        let mut next: usize = 0;
        while next < graph_size as usize
            invariant
                m == graph_view(edges),
                is_square(m),
                edges@.len() == graph_size,
                graph_size <= GRAPH_SIZE,
                current < graph_size,
                pp == p0.push(current),
                path@ == pp,
                v0.len() == graph_size,
                visited@.len() == graph_size,
                visited@ == v0.update(current as int, true),
                p0 == old(path)@,
                v0 == old(visited)@,
                !v0[current as int],
                p0.len() < graph_size,
                is_simple_path(m, path@),
                path@[0] == 0,
                forall|v: int| 0 <= v < graph_size ==> (visited@[v] <==> path@.contains(v as u16)),
                next <= graph_size,
                pp.len() < graph_size ==> first_extension(m, pp, 0) == first_extension(m, pp, next as int),
            decreases graph_size - next,
        {
            assert(m[current as int] == edges@[current as int]@);
            assert(pp.last() == current);
            assert((next as int) as u16 == next as u16);
            let candidate = edges[current as usize][next] && !visited[next] && path.len() < graph_size as usize;
            if candidate {
                let child = self.dfs_v3(next as u16, visited, path, edges, start, timeout_ms, graph_size);
                if child == SearchOutcome::Found {
                    return SearchOutcome::Found;
                }
                if child == SearchOutcome::Aborted {
                    visited.set(current as usize, false);
                    path.pop();
                    assert(visited@ =~= v0);
                    assert(path@ =~= p0);
                    return SearchOutcome::Aborted;
                }
            }
            next = next + 1;
        }
        visited.set(current as usize, false);
        path.pop();
        assert(visited@ =~= v0);
        assert(path@ =~= p0);
        SearchOutcome::Exhausted
    }

    /// The second family's search with its outcome: a graph of `graph_size`
    /// nodes seeded from the hash's hex text at the given per-mille density,
    /// searched within `timeout_ms`. `Found` comes with the first cycle in
    /// ascending neighbour order; `Exhausted` means the graph has no cycle;
    /// `Aborted` means the timeout passed or the generator's words ran out.
    pub fn search_hamiltonian_cycle_v3_hex(
        &self,
        graph_hash_hex: &str,
        graph_size: u16,
        percentage_x10: u16,
        timeout_ms: u64,
    ) -> (r: (SearchOutcome, Vec<u16>))
        requires
            is_hex_text(graph_hash_hex@),
            graph_hash_hex@.len() >= 16,
            1 <= graph_size <= GRAPH_SIZE,
        ensures
            r.0 == SearchOutcome::Found ==> is_cycle_v3(graph_hash_hex@, graph_size as int, percentage_x10, r.1@)
                && is_first_cycle_v3(graph_hash_hex@, graph_size as int, percentage_x10, r.1@)
                && r.1@.len() == graph_size,
            r.0 != SearchOutcome::Found ==> r.1@.len() == 0,
            r.0 == SearchOutcome::Exhausted ==> exists|m: Seq<Seq<bool>>|
                #[trigger] is_graph_v3(m, seed_of_hex(graph_hash_hex@), graph_size as int, percentage_x10)
                    && !exists|c: Seq<u16>| is_hamiltonian_cycle(m, c),
            draws_of(
                mt64_prefix(seed_of_hex(graph_hash_hex@), draw_budget(edge_count(graph_size as int) as nat)),
            ).len() < edge_count(graph_size as int) ==> r.0 == SearchOutcome::Aborted,
    {
        let mut path: Vec<u16> = Vec::new();
        let mut visited: Vec<bool> = vec![false; graph_size as usize];
        let seed = self.extract_seed_from_hash_hex(graph_hash_hex);
        let generated = self.generate_graph_v3_from_seed(seed, graph_size, percentage_x10);
        let edges = match generated {
            Some(e) => e,
            None => {
                return (SearchOutcome::Aborted, Vec::new());
            },
        };
        let ghost m = graph_view(&edges);
        proof {
            let d = choose|d: Seq<u64>|
                #[trigger] first_draws(seed, edge_count(graph_size as int) as nat, d) && m == sym_graph(
                    bits_v3(d, percentage_x10),
                    graph_size as int,
                );
            lemma_sym_graph_square(bits_v3(d, percentage_x10), graph_size as int);
        }
        let start_node: u16 = 0;
        let start = now();
        let outcome = self.dfs_v3(start_node, &mut visited, &mut path, &edges, &start, timeout_ms, graph_size);
        if outcome == SearchOutcome::Found {
            assert(Seq::<u16>::empty().push(0u16) =~= seq![0u16]);
            assert(is_graph_v3(m, seed_of_hex(graph_hash_hex@), graph_size as int, percentage_x10));
            assert(first_cycle(m) == Some(path@));
            return (outcome, path);
        }
        proof {
            lemma_first_cycle_iff_cycle(m);
            assert(Seq::<u16>::empty().push(0u16) =~= seq![0u16]);
            assert(is_graph_v3(m, seed_of_hex(graph_hash_hex@), graph_size as int, percentage_x10));
        }
        (outcome, Vec::new())
    }

    /// The second family's search: a graph of `graph_size` nodes seeded from
    /// the hash's hex text at the given per-mille density, searched for a
    /// cycle within `timeout_ms`: the first cycle in ascending neighbour
    /// order, or empty when none was found in time.
    pub fn find_hamiltonian_cycle_v3_hex(
        &self,
        graph_hash_hex: &str,
        graph_size: u16,
        percentage_x10: u16,
        timeout_ms: u64,
    ) -> (r: Vec<u16>)
        requires
            is_hex_text(graph_hash_hex@),
            graph_hash_hex@.len() >= 16,
            1 <= graph_size <= GRAPH_SIZE,
        ensures
            r@.len() == 0 || is_cycle_v3(graph_hash_hex@, graph_size as int, percentage_x10, r@),
            r@.len() == 0 || r@.len() == graph_size,
            r@.len() == 0 || is_first_cycle_v3(graph_hash_hex@, graph_size as int, percentage_x10, r@),
            draws_of(
                mt64_prefix(seed_of_hex(graph_hash_hex@), draw_budget(edge_count(graph_size as int) as nat)),
            ).len() < edge_count(graph_size as int) ==> r@.len() == 0,
    {
        let (_, path) = self.search_hamiltonian_cycle_v3_hex(
            graph_hash_hex,
            graph_size,
            percentage_x10,
            timeout_ms,
        );
        path
    }
}

} // verus!

verus! {

/// Every graph of the first family is symmetric with an empty diagonal.
pub proof fn lemma_graph_v2_undirected(seed: u64, g: int)
    requires
        0 <= g,
    ensures
        is_undirected(graph_v2(seed, g)),
{
    lemma_sym_graph_undirected(bits_v2(seed, g), g);
}

/// Every graph of the second family is symmetric with an empty diagonal.
pub proof fn lemma_graph_v3_undirected(m: Seq<Seq<bool>>, seed: u64, g: int, percentage_x10: u16)
    requires
        0 <= g,
        is_graph_v3(m, seed, g, percentage_x10),
    ensures
        is_undirected(m),
{
    let d = choose|d: Seq<u64>|
        #[trigger] first_draws(seed, edge_count(g) as nat, d) && m == sym_graph(bits_v3(d, percentage_x10), g);
    lemma_sym_graph_undirected(bits_v3(d, percentage_x10), g);
}

/// First-family generation is deterministic: two graphs generated from the
/// same seed and size are identical.
pub proof fn lemma_graph_v2_deterministic(seed: u64, g: int, a: Seq<Seq<bool>>, b: Seq<Seq<bool>>)
    requires
        a == graph_v2(seed, g),
        b == graph_v2(seed, g),
    ensures
        a == b,
{
}

} // verus!

verus! {

/// Second-family generation is deterministic too: the seed, size and density
/// determine the graph.
pub proof fn lemma_graph_v3_deterministic(
    seed: u64,
    g: int,
    percentage_x10: u16,
    a: Seq<Seq<bool>>,
    b: Seq<Seq<bool>>,
)
    requires
        is_graph_v3(a, seed, g, percentage_x10),
        is_graph_v3(b, seed, g, percentage_x10),
    ensures
        a == b,
{
    let d = choose|d: Seq<u64>|
        #[trigger] first_draws(seed, edge_count(g) as nat, d) && a == sym_graph(bits_v3(d, percentage_x10), g);
    let e = choose|e: Seq<u64>|
        #[trigger] first_draws(seed, edge_count(g) as nat, e) && b == sym_graph(bits_v3(e, percentage_x10), g);
    crate::rng::lemma_first_draws_unique(seed, edge_count(g) as nat, d, e);
}

} // verus!
