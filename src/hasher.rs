//! The proof pipeline: header digest, version switch, one or two cycle
//! searches, and the final serialized solution with its hash.

use vstd::prelude::*;
use crate::codec::{
    all_hex_digits, be_value, concat_bytes, hex_bytes, hex_decode, hex_digit, hex_encode, hex_text,
    hex_value, is_hex_text, le_bytes_of, le_u16, le_u16_seq, lemma_hex_text_is_hex, read_be,
    reverse_bytes,
};
use crate::digest::{sha256, sha256_of};
use crate::graph::{first_cycle, is_hamiltonian_cycle, GRAPH_SIZE};
use crate::solver::{
    graph_v2, grid_size_v2, is_first_cycle_v3, is_graph_v3, lemma_graph_v3_deterministic, seed_of_hex,
    seed_v2, GraphHash, HCGraphUtil,
};
use vstd::string::StrSliceExecFns;

verus! {

/// Header time at or before which the first algorithm family applies.
pub const HARDFORK_TIMESTAMP_QB: u32 = 1759204800;

/// Offset, in hex digits, of the header's time field.
pub const HEADER_TIME_OFFSET: usize = 136;

/// Density, per mille, of the worker graph.
pub const WORKER_DENSITY_X10: u16 = 500;

/// Search timeout of the worker graph, in milliseconds.
pub const WORKER_TIMEOUT_MS: u64 = 1000;

/// Density, per mille, of the queen graph.
pub const QUEEN_DENSITY_X10: u16 = 125;

/// Search timeout of the queen graph, in milliseconds.
pub const QUEEN_TIMEOUT_MS: u64 = 10;

/// The header's time: the four bytes of the time field, read little-endian.
pub open spec fn header_time(data: Seq<char>) -> nat {
    be_value(hex_bytes(data.subrange(136, 144)).reverse())
}

/// Compact-size prefix of an element count.
pub open spec fn compact_size(n: nat) -> Seq<u8> {
    if n < 0xfd {
        seq![n as u8]
    } else if n <= 0xffff {
        seq![0xfdu8] + le_u16(n as u16)
    } else {
        seq![0xfeu8, (n % 256) as u8, (n / 256 % 256) as u8, (n / 65536 % 256) as u8, (
        n / 16777216 % 256) as u8]
    }
}

/// A path as a length-prefixed array of 16-bit values.
pub open spec fn compact_path(p: Seq<u16>) -> Seq<u8> {
    compact_size(p.len()) + le_u16_seq(p)
}

/// `p` padded with the sentinel `u16::MAX` to `GRAPH_SIZE` entries; a longer
/// path stays as it is.
pub open spec fn padded(p: Seq<u16>) -> Seq<u16> {
    if p.len() < GRAPH_SIZE {
        p + Seq::new((GRAPH_SIZE - p.len()) as nat, |i: int| u16::MAX)
    } else {
        p
    }
}

/// Bytes of the solution field for a combined path.
pub open spec fn solution_bytes(p: Seq<u16>) -> Seq<u8> {
    le_u16_seq(padded(p))
}

/// The all-sentinel solution field of the first digest.
pub open spec fn placeholder_bytes() -> Seq<u8> {
    Seq::new(2 * GRAPH_SIZE as nat, |i: int| 0xffu8)
}

/// Digest of the header with the placeholder solution.
pub open spec fn first_digest(data: Seq<char>) -> Seq<u8> {
    sha256_of(hex_bytes(data) + placeholder_bytes())
}

/// The graph hash: the first digest's bytes reversed, most significant first.
pub open spec fn first_hash(data: Seq<char>) -> Seq<u8> {
    first_digest(data).reverse()
}

pub open spec fn first_hash_hex(data: Seq<char>) -> Seq<char> {
    hex_text(first_hash(data))
}

/// Node count of the worker graph for a header.
pub open spec fn worker_size(data: Seq<char>) -> int {
    (1892 + hex_value(first_hash_hex(data).subrange(0, 8)) % 28) as int
}

/// Hex text of the queen graph's hash: the worker path, length-prefixed,
/// followed by the first digest, hashed and reversed.
pub open spec fn queen_hash_hex(data: Seq<char>, worker: Seq<u16>) -> Seq<char> {
    hex_text(sha256_of(compact_path(worker) + first_digest(data)).reverse())
}

/// Whether a header time selects the first algorithm family.
pub open spec fn is_v2_time(t: nat) -> bool {
    t <= HARDFORK_TIMESTAMP_QB
}

/// The first family's graph for a header.
pub open spec fn header_graph_v2(data: Seq<char>) -> Seq<Seq<bool>> {
    graph_v2(seed_v2(first_hash(data)), grid_size_v2(first_hash(data)) as int)
}

/// `p` is the combined path that a successful search finds for the header:
/// the first cycle (ascending candidate order) of the first family's graph
/// up to the hardfork time; after it, the first worker cycle followed by the
/// first queen cycle.
pub open spec fn is_solve_path(data: Seq<char>, p: Seq<u16>) -> bool {
    if is_v2_time(header_time(data)) {
        is_hamiltonian_cycle(header_graph_v2(data), p) && first_cycle(header_graph_v2(data)) == Some(p)
    } else {
        exists|w: Seq<u16>, q: Seq<u16>|
            p == w + q && #[trigger] is_first_cycle_v3(
                first_hash_hex(data),
                worker_size(data),
                WORKER_DENSITY_X10,
                w,
            ) && #[trigger] is_first_cycle_v3(
                queen_hash_hex(data, w),
                GRAPH_SIZE - worker_size(data),
                QUEEN_DENSITY_X10,
                q,
            )
    }
}

/// Final hash text of a header and combined path.
pub open spec fn final_hash_hex(data: Seq<char>, p: Seq<u16>) -> Seq<char> {
    hex_text(sha256_of(hex_bytes(data) + solution_bytes(p)).reverse())
}

/// Reads the header's time field (four bytes, little-endian).
pub fn parse_header_time_from_data(header_data_hex: &str) -> (r: u32)
    requires
        header_data_hex@.len() >= 144,
        all_hex_digits(header_data_hex@.subrange(136, 144)),
    ensures
        r as nat == header_time(header_data_hex@),
{
    let ghost field = header_data_hex@.subrange(136, 144);
    let time_start: usize = HEADER_TIME_OFFSET;
    let mut bytes: Vec<u8> = Vec::new();
    let mut i: usize = 4;
    while i > 0
        invariant
            i <= 4,
            header_data_hex@.len() >= 144,
            field == header_data_hex@.subrange(136, 144),
            all_hex_digits(field),
            time_start == 136,
            bytes@.len() == 4 - i,
            forall|k: int| 0 <= k < bytes@.len() ==> bytes@[k] == hex_bytes(field)[3 - k],
        decreases i,
    {
        i = i - 1;
        assert(field[2 * i as int] == header_data_hex@[time_start + 2 * i]);
        assert(field[2 * i + 1] == header_data_hex@[time_start + 2 * i + 1]);
        assert(crate::codec::is_hex_digit(field[2 * i as int]));
        assert(crate::codec::is_hex_digit(field[2 * i + 1]));
        let hi = hex_digit(header_data_hex.get_char(time_start + 2 * i));
        let lo = hex_digit(header_data_hex.get_char(time_start + 2 * i + 1));
        bytes.push(hi * 16 + lo);
    }
    assert(bytes@ =~= hex_bytes(field).reverse());
    assert(bytes@.subrange(0, 4) =~= bytes@);
    proof {
        crate::codec::lemma_be_value_4_bound(bytes@);
    }
    read_be(&bytes, 0, 4) as u32
}

/// Whether the header time selects the first algorithm family.
pub fn uses_v2_family(header_time: u32) -> (r: bool)
    ensures
        r == is_v2_time(header_time as nat),
{
    header_time <= HARDFORK_TIMESTAMP_QB
}

/// Compact-size serialization of a worker path: the element count as one
/// byte below `0xfd`, else `0xfd` and two little-endian bytes up to
/// `0xffff`, else `0xfe` and four; then each value, low byte first.
pub fn serialize_worker_path(path: &Vec<u16>) -> (r: Vec<u8>)
    requires
        path@.len() <= 0x1000_0000,
    ensures
        r@ == compact_path(path@),
        r@.len() <= 2 * path@.len() + 5,
{
    let size = path.len();
    let mut out: Vec<u8> = Vec::new();
    if size < 0xfd {
        out.push(size as u8);
    } else if size <= 0xffff {
        out.push(0xfd);
        out.push((size % 256) as u8);
        out.push((size / 256) as u8);
    } else {
        out.push(0xfe);
        out.push((size % 256) as u8);
        out.push((size / 256 % 256) as u8);
        out.push((size / 65536 % 256) as u8);
        out.push((size / 16777216 % 256) as u8);
    }
    assert(out@ =~= compact_size(size as nat));
    let values = le_bytes_of(path);
    concat_bytes(&out, &values)
}

/// The combined path padded with `u16::MAX` to `GRAPH_SIZE` entries.
pub fn pad_path(path: &Vec<u16>) -> (r: Vec<u16>)
    ensures
        r@ == padded(path@),
{
    let mut r: Vec<u16> = Vec::new();
    let mut i: usize = 0;
    while i < path.len()
        invariant
            i <= path@.len(),
            r@ == path@.subrange(0, i as int),
        decreases path@.len() - i,
    {
        r.push(path[i]);
        i = i + 1;
        assert(r@ =~= path@.subrange(0, i as int));
    }
    assert(path@.subrange(0, path@.len() as int) =~= path@);
    while r.len() < GRAPH_SIZE as usize
        invariant
            path@.len() < GRAPH_SIZE ==> r@ == path@ + Seq::new((r@.len() - path@.len()) as nat, |i: int| u16::MAX),
            path@.len() >= GRAPH_SIZE ==> r@ == path@,
            r@.len() >= path@.len(),
            path@.len() < GRAPH_SIZE ==> r@.len() <= GRAPH_SIZE,
        decreases GRAPH_SIZE - r@.len(),
    {
        r.push(u16::MAX);
        assert(r@ =~= path@ + Seq::new((r@.len() - path@.len()) as nat, |i: int| u16::MAX));
    }
    assert(padded(path@) =~= r@);
    r
}

/// Serializes a combined path and hashes it with the header: returns the
/// final hash text and the solution text.
pub fn finish_proof(data_bytes: &Vec<u8>, combined_path: &Vec<u16>) -> (r: (String, String))
    requires
        data_bytes@.len() <= 0x1000_0000,
        combined_path@.len() <= 0x1000_0000,
    ensures
        r.0@ == hex_text(sha256_of(data_bytes@ + solution_bytes(combined_path@)).reverse()),
        r.1@ == hex_text(solution_bytes(combined_path@)),
        r.0@.len() == 64,
{
    let padded_path = pad_path(combined_path);
    let solution = le_bytes_of(&padded_path);
    let with_solution = concat_bytes(data_bytes, &solution);
    let hash = sha256(&with_solution);
    let hash_reversed = reverse_bytes(&hash);
    proof {
        lemma_hex_text_is_hex(hash_reversed@);
    }
    (hex_encode(&hash_reversed), hex_encode(&solution))
}

} // verus!

verus! {

/// Solves a header: on success, the final hash text and the solution text
/// for a combined path that the search found for it; `None` when a search
/// found no cycle in time.
pub fn compute_hash_no_vdf(data: &str, hc_util: &mut HCGraphUtil) -> (r: Option<(String, String)>)
    requires
        is_hex_text(data@),
        144 <= data@.len() <= 0x1000_0000,
    ensures
        *final(hc_util) == *old(hc_util),
        r is Some ==> exists|p: Seq<u16>|
            #[trigger] is_solve_path(data@, p) && r->Some_0.0@ == final_hash_hex(data@, p)
                && r->Some_0.1@ == hex_text(solution_bytes(p)),
        r is Some ==> r->Some_0.0@.len() == 64,
{
    let data_bytes = match hex_decode(data) {
        Ok(b) => b,
        Err(_) => {
            return None;
        },
    };
    let placeholder: Vec<u8> = vec![0xffu8; 2 * GRAPH_SIZE as usize];
    assert(placeholder@ =~= placeholder_bytes());
    let data_with_vdf = concat_bytes(&data_bytes, &placeholder);
    let hash1 = sha256(&data_with_vdf);
    let graph_hash_bytes = reverse_bytes(&hash1);
    let hash1_hex = hex_encode(&graph_hash_bytes);
    proof {
        lemma_hex_text_is_hex(graph_hash_bytes@);
        let t = hash1_hex@;
        assert forall|i: int| 0 <= i < 8 implies crate::codec::is_hex_digit(
            #[trigger] t.subrange(0, 8)[i],
        ) by {
            assert(t.subrange(0, 8)[i] == t[i]);
        }
    }
    let worker_grid_size = hc_util.get_worker_grid_size(&hash1_hex);
    let queen_bee_grid_size = hc_util.get_queen_bee_grid_size(worker_grid_size);
    proof {
        let t = data@;
        assert forall|i: int| 0 <= i < 8 implies crate::codec::is_hex_digit(
            #[trigger] t.subrange(136, 144)[i],
        ) by {
            assert(t.subrange(136, 144)[i] == t[136 + i]);
        }
    }
    let header_time = parse_header_time_from_data(data);
    let combined_path: Vec<u16>;
    if uses_v2_family(header_time) {
        let graph_hash = match GraphHash::from_be_bytes(graph_hash_bytes) {
            Some(h) => h,
            None => {
                return None;
            },
        };
        let path_v2 = hc_util.find_hamiltonian_cycle_v2(graph_hash);
        if path_v2.len() == 0 {
            return None;
        }
        combined_path = path_v2;
    } else {
        let worker_path = hc_util.find_hamiltonian_cycle_v3_hex(
            &hash1_hex,
            worker_grid_size,
            WORKER_DENSITY_X10,
            WORKER_TIMEOUT_MS,
        );
        if worker_path.len() == 0 {
            return None;
        }
        let ghost w = worker_path@;
        let mut queen_hash_data = serialize_worker_path(&worker_path);
        queen_hash_data = concat_bytes(&queen_hash_data, &hash1);
        let queen_hash = sha256(&queen_hash_data);
        let queen_hash_reversed = hex_encode(&reverse_bytes(&queen_hash));
        proof {
            lemma_hex_text_is_hex(queen_hash@.reverse());
        }
        let queen_path = hc_util.find_hamiltonian_cycle_v3_hex(
            &queen_hash_reversed,
            queen_bee_grid_size,
            QUEEN_DENSITY_X10,
            QUEEN_TIMEOUT_MS,
        );
        if queen_path.len() == 0 {
            return None;
        }
        let ghost q = queen_path@;
        let mut joined: Vec<u16> = Vec::new();
        let mut i: usize = 0;
        while i < worker_path.len()
            invariant
                i <= worker_path@.len(),
                joined@ == worker_path@.subrange(0, i as int),
            decreases worker_path@.len() - i,
        {
            joined.push(worker_path[i]);
            i = i + 1;
            assert(joined@ =~= worker_path@.subrange(0, i as int));
        }
        let mut j: usize = 0;
        while j < queen_path.len()
            invariant
                j <= queen_path@.len(),
                joined@ == worker_path@ + queen_path@.subrange(0, j as int),
            decreases queen_path@.len() - j,
        {
            joined.push(queen_path[j]);
            j = j + 1;
            assert(joined@ =~= worker_path@ + queen_path@.subrange(0, j as int));
        }
        assert(queen_path@.subrange(0, queen_path@.len() as int) =~= queen_path@);
        assert(worker_path@.subrange(0, worker_path@.len() as int) =~= worker_path@);
        proof {
            assert(is_first_cycle_v3(first_hash_hex(data@), worker_size(data@), WORKER_DENSITY_X10, w));
            assert(is_first_cycle_v3(
                queen_hash_hex(data@, w),
                GRAPH_SIZE - worker_size(data@),
                QUEEN_DENSITY_X10,
                q,
            ));
            assert(joined@ == w + q);
        }
        combined_path = joined;
    }
    let result = finish_proof(&data_bytes, &combined_path);
    proof {
        assert(is_solve_path(data@, combined_path@));
    }
    Some(result)
}

} // verus!

verus! {

/// The version switch: a header time equal to the hardfork time selects the
/// first family, one second later the second.
pub proof fn lemma_hardfork_switch()
    ensures
        is_v2_time(1759204800),
        !is_v2_time(1759204801),
{
}

/// A solution text always holds `GRAPH_SIZE` four-digit entries when the
/// combined path is no longer than `GRAPH_SIZE`.
pub proof fn lemma_solution_length(p: Seq<u16>)
    requires
        p.len() <= GRAPH_SIZE,
    ensures
        solution_bytes(p).len() == 2 * GRAPH_SIZE,
        hex_text(solution_bytes(p)).len() == 4 * GRAPH_SIZE,
{
    lemma_le_u16_seq_len(padded(p));
}

pub proof fn lemma_le_u16_seq_len(s: Seq<u16>)
    ensures
        le_u16_seq(s).len() == 2 * s.len(),
    decreases s.len(),
{
    if s.len() > 0 {
        lemma_le_u16_seq_len(s.drop_last());
    }
}

} // verus!

verus! {

/// A solve is repeatable: the combined path of a successful solve is fixed
/// by the header, so two successful solves of one header give the same
/// final hash and solution.
pub proof fn lemma_solve_path_unique(data: Seq<char>, p: Seq<u16>, q: Seq<u16>)
    requires
        is_solve_path(data, p),
        is_solve_path(data, q),
    ensures
        p == q,
        final_hash_hex(data, p) == final_hash_hex(data, q),
        hex_text(solution_bytes(p)) == hex_text(solution_bytes(q)),
{
    if !is_v2_time(header_time(data)) {
        let (w1, q1) = choose|w: Seq<u16>, q: Seq<u16>|
            p == w + q && #[trigger] is_first_cycle_v3(first_hash_hex(data), worker_size(data), WORKER_DENSITY_X10, w)
                && #[trigger] is_first_cycle_v3(queen_hash_hex(data, w), GRAPH_SIZE - worker_size(data), QUEEN_DENSITY_X10, q);
        let (w2, q2) = choose|w: Seq<u16>, qq: Seq<u16>|
            q == w + qq && #[trigger] is_first_cycle_v3(first_hash_hex(data), worker_size(data), WORKER_DENSITY_X10, w)
                && #[trigger] is_first_cycle_v3(queen_hash_hex(data, w), GRAPH_SIZE - worker_size(data), QUEEN_DENSITY_X10, qq);
        lemma_first_cycle_v3_unique(first_hash_hex(data), worker_size(data), WORKER_DENSITY_X10, w1, w2);
        lemma_first_cycle_v3_unique(queen_hash_hex(data, w1), GRAPH_SIZE - worker_size(data), QUEEN_DENSITY_X10, q1, q2);
    }
}

/// The first cycle of a second-family graph is unique.
pub proof fn lemma_first_cycle_v3_unique(hex: Seq<char>, g: int, percentage_x10: u16, a: Seq<u16>, b: Seq<u16>)
    requires
        is_first_cycle_v3(hex, g, percentage_x10, a),
        is_first_cycle_v3(hex, g, percentage_x10, b),
    ensures
        a == b,
{
    let ma = choose|m: Seq<Seq<bool>>|
        #[trigger] is_graph_v3(m, seed_of_hex(hex), g, percentage_x10) && first_cycle(m) == Some(a);
    let mb = choose|m: Seq<Seq<bool>>|
        #[trigger] is_graph_v3(m, seed_of_hex(hex), g, percentage_x10) && first_cycle(m) == Some(b);
    lemma_graph_v3_deterministic(seed_of_hex(hex), g, percentage_x10, ma, mb);
}

} // verus!
