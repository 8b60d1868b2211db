use shaipot::graph::GRAPH_SIZE;
use shaipot::rng::{draw_from_word, uniform_draws};
use shaipot::solver::{generate_graph_v2_from_seed, GraphHash, HCGraphUtil};

fn assert_undirected(g: &Vec<Vec<bool>>, n: usize) {
    assert_eq!(g.len(), n);
    for i in 0..n {
        assert_eq!(g[i].len(), n);
        assert!(!g[i][i]);
        for j in 0..n {
            assert_eq!(g[i][j], g[j][i]);
        }
    }
}

const MT64_FIRST_WORD_5489: u64 = 14514284786278117030;

#[test]
fn v2_graph_is_symmetric_and_irreflexive() {
    for n in [1u16, 2, 7, 33, 64] {
        let g = generate_graph_v2_from_seed(0x1234_5678_9abc_def0, n);
        assert_undirected(&g, n as usize);
    }
}

#[test]
fn v2_graph_is_deterministic() {
    let a = generate_graph_v2_from_seed(987654321, 120);
    let b = generate_graph_v2_from_seed(987654321, 120);
    assert_eq!(a, b);
    let c = generate_graph_v2_from_seed(987654322, 120);
    assert_ne!(a, c);
}

#[test]
fn v2_graph_takes_bits_from_high_end_of_low_word() {
    // Three nodes need three bits: bits 31, 30, 29 of the first word's low half.
    let low = (MT64_FIRST_WORD_5489 & 0xffff_ffff) as u32;
    let g = generate_graph_v2_from_seed(5489, 3);
    assert_eq!(g[0][1], (low >> 31) & 1 == 1);
    assert_eq!(g[0][2], (low >> 30) & 1 == 1);
    assert_eq!(g[1][2], (low >> 29) & 1 == 1);
    assert_eq!(g[1][0], g[0][1]);
}

#[test]
fn v2_graph_of_hash_uses_low_64_bits() {
    let mut bytes = vec![0u8; 32];
    bytes[31] = 0x71;
    bytes[30] = 0x15;
    let h = GraphHash::from_be_bytes(bytes).unwrap();
    let util = HCGraphUtil::new(None);
    assert_eq!(util.extract_seed_from_hash(&h), 5489);
    assert_eq!(util.generate_graph_v2(&h, 40), generate_graph_v2_from_seed(5489, 40));
}

#[test]
fn graph_hash_needs_32_bytes() {
    assert!(GraphHash::from_be_bytes(vec![0u8; 31]).is_none());
    assert!(GraphHash::from_be_bytes(vec![0u8; 33]).is_none());
    assert!(GraphHash::from_be_bytes(vec![0u8; 32]).is_some());
}

#[test]
fn grid_size_v2_range() {
    let util = HCGraphUtil::new(None);
    let mut bytes = vec![0u8; 32];
    bytes[3] = 13;
    let h = GraphHash::from_be_bytes(bytes.clone()).unwrap();
    assert_eq!(util.get_grid_size_v2(&h), 2005);
    bytes[0] = 0xff;
    bytes[1] = 0xff;
    bytes[2] = 0xff;
    bytes[3] = 0xff;
    let h = GraphHash::from_be_bytes(bytes).unwrap();
    assert_eq!(util.get_grid_size_v2(&h), 2007);
    assert!(util.get_grid_size_v2(&h) < GRAPH_SIZE);
}

#[test]
fn uniform_draw_of_words() {
    assert_eq!(draw_from_word(0), None);
    assert_eq!(draw_from_word(u64::MAX), Some(999));
    assert_eq!(draw_from_word(1u64 << 63), None);
    assert_eq!(draw_from_word((1u64 << 63) + 1), Some(500));
}

#[test]
fn uniform_draws_follow_mt64_stream() {
    let d = uniform_draws(5489, 1).unwrap();
    let expected = ((MT64_FIRST_WORD_5489 as u128 * 1000) >> 64) as u64;
    assert_eq!(d, vec![expected]);
    let many = uniform_draws(42, 5000).unwrap();
    assert_eq!(many.len(), 5000);
    assert!(many.iter().all(|&x| x < 1000));
    assert_eq!(uniform_draws(42, 0).unwrap(), Vec::<u64>::new());
}

#[test]
fn v3_graph_is_symmetric_and_irreflexive() {
    let util = HCGraphUtil::new(None);
    for n in [1u16, 2, 9, 50] {
        let g = util.generate_graph_v3_from_seed(77, n, 500).unwrap();
        assert_undirected(&g, n as usize);
    }
}

fn edge_fraction(g: &Vec<Vec<bool>>) -> f64 {
    let n = g.len();
    let mut edges = 0usize;
    for i in 0..n {
        for j in (i + 1)..n {
            if g[i][j] {
                edges += 1;
            }
        }
    }
    edges as f64 / ((n * (n - 1) / 2) as f64)
}

#[test]
fn v3_density_follows_percentage() {
    let util = HCGraphUtil::new(None);
    for seed in [1u64, 2, 3] {
        let half = util.generate_graph_v3_from_seed(seed, 300, 500).unwrap();
        let f = edge_fraction(&half);
        assert!((f - 0.5).abs() < 0.02, "{}", f);
        let eighth = util.generate_graph_v3_from_seed(seed, 300, 125).unwrap();
        let f = edge_fraction(&eighth);
        assert!((f - 0.125).abs() < 0.015, "{}", f);
    }
    let none = util.generate_graph_v3_from_seed(5, 100, 0).unwrap();
    assert_eq!(edge_fraction(&none), 0.0);
    let all = util.generate_graph_v3_from_seed(5, 100, 1000).unwrap();
    assert_eq!(edge_fraction(&all), 1.0);
}

#[test]
fn v3_graph_edges_are_draws_below_threshold() {
    let util = HCGraphUtil::new(None);
    let g = util.generate_graph_v3_from_seed(5489, 4, 500).unwrap();
    let d = uniform_draws(5489, 6).unwrap();
    let order = [(0, 1), (0, 2), (0, 3), (1, 2), (1, 3), (2, 3)];
    for (k, &(i, j)) in order.iter().enumerate() {
        assert_eq!(g[i][j], d[k] < 500);
    }
}
