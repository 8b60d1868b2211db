use sha2::{Digest, Sha256};
use shaipot::hasher::{
    compute_hash_no_vdf, finish_proof, pad_path, parse_header_time_from_data,
    serialize_worker_path, uses_v2_family, HARDFORK_TIMESTAMP_QB,
};
use shaipot::models::bailout_or_default;
use shaipot::solver::HCGraphUtil;

fn header_with_time(time: u32) -> String {
    let le = time.to_le_bytes();
    format!(
        "{}{}{}",
        "00".repeat(68),
        le.iter().map(|b| format!("{:02x}", b)).collect::<String>(),
        "11".repeat(8)
    )
}

#[test]
fn header_time_reads_little_endian_field() {
    let h = header_with_time(1759204800);
    assert_eq!(parse_header_time_from_data(&h), 1759204800);
    let h = format!("{}{}", "0".repeat(136), "01020304");
    assert_eq!(parse_header_time_from_data(&h), 0x04030201);
}

#[test]
fn hardfork_switch_at_activation_time() {
    assert!(uses_v2_family(parse_header_time_from_data(&header_with_time(HARDFORK_TIMESTAMP_QB))));
    assert!(uses_v2_family(1759204800));
    assert!(!uses_v2_family(1759204801));
    assert!(!uses_v2_family(parse_header_time_from_data(&header_with_time(1759204801))));
}

#[test]
fn compact_size_of_short_path() {
    let p: Vec<u16> = (0..100).collect();
    let s = serialize_worker_path(&p);
    assert_eq!(s.len(), 1 + 200);
    assert_eq!(s[0], 100);
    assert_eq!(&s[1..5], &[0, 0, 1, 0]);
}

#[test]
fn compact_size_of_500_entries() {
    let p: Vec<u16> = vec![0x0102; 500];
    let s = serialize_worker_path(&p);
    assert_eq!(&s[0..3], &[0xfd, 0xf4, 0x01]);
    assert_eq!(s.len(), 3 + 1000);
    assert_eq!(&s[3..5], &[0x02, 0x01]);
}

#[test]
fn compact_size_of_70000_entries() {
    let p: Vec<u16> = vec![7; 70000];
    let s = serialize_worker_path(&p);
    assert_eq!(&s[0..5], &[0xfe, 0x70, 0x11, 0x01, 0x00]);
    assert_eq!(s.len(), 5 + 140000);
}

#[test]
fn compact_size_boundaries() {
    assert_eq!(serialize_worker_path(&vec![0; 252])[0], 252);
    assert_eq!(&serialize_worker_path(&vec![0; 253])[0..3], &[0xfd, 0xfd, 0x00]);
    assert_eq!(&serialize_worker_path(&vec![0; 65535])[0..3], &[0xfd, 0xff, 0xff]);
    assert_eq!(&serialize_worker_path(&vec![0; 65536])[0..5], &[0xfe, 0x00, 0x00, 0x01, 0x00]);
}

#[test]
fn pad_path_fills_with_sentinel() {
    let p = pad_path(&vec![3, 4]);
    assert_eq!(p.len(), 2008);
    assert_eq!(&p[0..2], &[3, 4]);
    assert!(p[2..].iter().all(|&v| v == u16::MAX));
    let long = vec![1u16; 2010];
    assert_eq!(pad_path(&long), long);
}

#[test]
fn finish_proof_serializes_and_hashes() {
    let data = vec![0xabu8, 0xcd];
    let (hash, solution) = finish_proof(&data, &vec![1, 0x0203]);
    assert_eq!(solution.len(), 8032);
    assert!(solution.starts_with("01000302ffff"));
    let mut bytes = data.clone();
    bytes.extend([1u8, 0, 3, 2]);
    bytes.extend(vec![0xffu8; 2 * 2006]);
    let mut digest = Sha256::digest(&bytes).to_vec();
    digest.reverse();
    let expected: String = digest.iter().map(|b| format!("{:02x}", b)).collect();
    assert_eq!(hash, expected);
    assert_eq!(hash.len(), 64);
}

#[test]
fn solve_with_zero_bailout_before_hardfork_is_none() {
    let h = header_with_time(1700000000);
    let mut util = HCGraphUtil::new(Some(0));
    assert!(compute_hash_no_vdf(&h, &mut util).is_none());
}

#[test]
fn solve_is_repeatable() {
    let h = header_with_time(1700000000);
    let mut util = HCGraphUtil::new(Some(5000));
    let a = compute_hash_no_vdf(&h, &mut util);
    let b = compute_hash_no_vdf(&h, &mut util);
    if let (Some(a), Some(b)) = (&a, &b) {
        assert_eq!(a, b);
        assert_eq!(a.0.len(), 64);
        assert_eq!(a.1.len(), 8032);
        assert!(a.1.starts_with("0000"));
        assert!(a.1.ends_with("ffff"));
    }
}

#[test]
fn bailout_setting_falls_back_to_default() {
    assert_eq!(bailout_or_default(&Some("250".to_string()), 1000), 250);
    assert_eq!(bailout_or_default(&Some("+7".to_string()), 1000), 7);
    assert_eq!(bailout_or_default(&Some("abc".to_string()), 1000), 1000);
    assert_eq!(bailout_or_default(&Some("".to_string()), 10), 10);
    assert_eq!(bailout_or_default(&Some("99999999999999999999".to_string()), 10), 10);
    assert_eq!(bailout_or_default(&None, 10), 10);
}
