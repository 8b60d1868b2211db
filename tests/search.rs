use shaipot::graph::SearchOutcome;
use shaipot::solver::{GraphHash, HCGraphUtil};

fn complete_graph(n: usize) -> Vec<Vec<bool>> {
    (0..n).map(|i| (0..n).map(|j| i != j).collect()).collect()
}

fn assert_cycle(g: &Vec<Vec<bool>>, p: &Vec<u16>) {
    let n = g.len();
    assert_eq!(p.len(), n);
    assert_eq!(p[0], 0);
    let mut seen = vec![false; n];
    for &v in p {
        assert!((v as usize) < n);
        assert!(!seen[v as usize]);
        seen[v as usize] = true;
    }
    for k in 0..n - 1 {
        assert!(g[p[k] as usize][p[k + 1] as usize]);
    }
    assert!(g[p[n - 1] as usize][p[0] as usize]);
}

fn hash_hex(tail: &str) -> String {
    format!("{}{}", "ab".repeat(24), tail)
}

#[test]
fn new_defaults_bailout_to_one_second() {
    assert_eq!(HCGraphUtil::new(None).vdf_bailout(), 1000);
    assert_eq!(HCGraphUtil::new(Some(25)).vdf_bailout(), 25);
    assert_eq!(HCGraphUtil::new(Some(0)).vdf_bailout(), 0);
}

#[test]
fn six_node_cycle_with_generous_bailout() {
    let g = complete_graph(6);
    let util = HCGraphUtil::new(Some(5000));
    let (outcome, p) = util.solve_cycle_v2(&g);
    assert_eq!(outcome, SearchOutcome::Found);
    assert_eq!(p, vec![0, 1, 2, 3, 4, 5]);
    assert_cycle(&g, &p);
}

#[test]
fn six_node_search_with_zero_bailout_is_empty() {
    let g = complete_graph(6);
    let util = HCGraphUtil::new(Some(0));
    let (outcome, p) = util.solve_cycle_v2(&g);
    assert_eq!(outcome, SearchOutcome::Aborted);
    assert!(p.is_empty());
}

#[test]
fn v2_search_backtracks_to_a_cycle() {
    // Ring 0-2-4-1-3-5-0 plus a dead-end chord 0-1.
    let mut g = vec![vec![false; 6]; 6];
    let ring = [0usize, 2, 4, 1, 3, 5];
    for k in 0..6 {
        let a = ring[k];
        let b = ring[(k + 1) % 6];
        g[a][b] = true;
        g[b][a] = true;
    }
    g[0][1] = true;
    g[1][0] = true;
    let util = HCGraphUtil::new(Some(5000));
    let (outcome, p) = util.solve_cycle_v2(&g);
    assert_eq!(outcome, SearchOutcome::Found);
    assert_cycle(&g, &p);
    assert_eq!(p, vec![0, 2, 4, 1, 3, 5]);
}

#[test]
fn v2_search_without_cycle_is_empty() {
    // A path graph 0-1-2-3 has no Hamiltonian cycle.
    let mut g = vec![vec![false; 4]; 4];
    for k in 0..3 {
        g[k][k + 1] = true;
        g[k + 1][k] = true;
    }
    let util = HCGraphUtil::new(Some(5000));
    assert_eq!(util.solve_cycle_v2(&g), (SearchOutcome::Exhausted, vec![]));
    let single = vec![vec![false]];
    assert_eq!(util.solve_cycle_v2(&single), (SearchOutcome::Exhausted, vec![]));
}

#[test]
fn v3_search_returns_valid_cycle() {
    let util = HCGraphUtil::new(None);
    let hex = hash_hex("0011223344556677");
    let p = util.find_hamiltonian_cycle_v3_hex(&hex, 24, 500, 5000);
    assert!(!p.is_empty());
    let seed = util.extract_seed_from_hash_hex(&hex);
    let g = util.generate_graph_v3_from_seed(seed, 24, 500).unwrap();
    assert_cycle(&g, &p);
}

#[test]
fn v3_search_with_zero_timeout_is_empty() {
    let util = HCGraphUtil::new(None);
    let hex = hash_hex("0011223344556677");
    assert!(util.find_hamiltonian_cycle_v3_hex(&hex, 24, 500, 0).is_empty());
}

#[test]
fn v3_search_on_empty_graph_is_empty() {
    let util = HCGraphUtil::new(None);
    let hex = hash_hex("0011223344556677");
    assert!(util.find_hamiltonian_cycle_v3_hex(&hex, 10, 0, 5000).is_empty());
    assert!(util.find_hamiltonian_cycle_v3_hex(&hex, 1, 1000, 5000).is_empty());
}

#[test]
fn v3_search_two_node_graph() {
    let util = HCGraphUtil::new(None);
    let hex = hash_hex("0011223344556677");
    assert_eq!(util.find_hamiltonian_cycle_v3_hex(&hex, 2, 1000, 5000), vec![0, 1]);
}

#[test]
fn seed_from_hash_hex_reads_last_eight_bytes() {
    let util = HCGraphUtil::new(None);
    let hex = hash_hex("0102030405060708");
    assert_eq!(util.extract_seed_from_hash_hex(&hex), 0x0102030405060708);
    assert_eq!(util.extract_seed_from_hash_hex("A1B2C3D4E5F60718"), 0xa1b2c3d4e5f60718);
}

#[test]
fn worker_and_queen_grid_sizes() {
    let util = HCGraphUtil::new(None);
    assert_eq!(util.get_worker_grid_size("0000001cffff"), 1892);
    assert_eq!(util.get_worker_grid_size("0000001d"), 1893);
    assert_eq!(util.get_worker_grid_size("ffffffff"), 1892 + (0xffffffffu64 % 28) as u16);
    assert_eq!(util.get_queen_bee_grid_size(1900), 108);
    assert_eq!(util.get_queen_bee_grid_size(1919), 89);
}

#[test]
fn hex_to_u64_reads_digits() {
    let util = HCGraphUtil::new(None);
    assert_eq!(util.hex_to_u64("ff"), 255);
    assert_eq!(util.hex_to_u64("DeadBeef"), 0xdeadbeef);
    assert_eq!(util.hex_to_u64("ffffffffffffffff"), u64::MAX);
}

#[test]
fn is_safe_checks_edge_and_prefix() {
    let g = complete_graph(4);
    let util = HCGraphUtil::new(None);
    let path = vec![0u16, 2, u16::MAX, u16::MAX];
    assert!(util.is_safe(1, &g, &path, 2));
    assert!(!util.is_safe(2, &g, &path, 2));
    assert!(!util.is_safe(0, &g, &path, 2));
}

#[test]
fn v3_complete_graph_gives_ascending_cycle() {
    let util = HCGraphUtil::new(None);
    let hex = "0".repeat(64);
    assert_eq!(util.find_hamiltonian_cycle_v3_hex(&hex, 6, 1000, 5000), vec![0, 1, 2, 3, 4, 5]);
}

#[test]
fn v3_search_outcomes() {
    let util = HCGraphUtil::new(None);
    let hex = hash_hex("0011223344556677");
    assert_eq!(
        util.search_hamiltonian_cycle_v3_hex(&hex, 10, 0, 5000),
        (SearchOutcome::Exhausted, vec![])
    );
    assert_eq!(
        util.search_hamiltonian_cycle_v3_hex(&hex, 24, 500, 0),
        (SearchOutcome::Aborted, vec![])
    );
    let (outcome, p) = util.search_hamiltonian_cycle_v3_hex(&hex, 24, 500, 5000);
    assert_eq!(outcome, SearchOutcome::Found);
    assert_eq!(p, util.find_hamiltonian_cycle_v3_hex(&hex, 24, 500, 5000));
}

#[test]
fn v3_search_is_repeatable() {
    let util = HCGraphUtil::new(None);
    let hex = hash_hex("8899aabbccddeeff");
    let a = util.find_hamiltonian_cycle_v3_hex(&hex, 40, 500, 5000);
    let b = util.find_hamiltonian_cycle_v3_hex(&hex, 40, 500, 5000);
    assert!(!a.is_empty());
    assert_eq!(a, b);
}

#[test]
fn v2_search_of_hash_with_zero_bailout_aborts() {
    let util = HCGraphUtil::new(Some(0));
    let h = GraphHash::from_be_bytes(vec![7u8; 32]).unwrap();
    assert_eq!(util.search_hamiltonian_cycle_v2(&h), (SearchOutcome::Aborted, vec![]));
    assert!(util.find_hamiltonian_cycle_v2(h).is_empty());
}
