use hss::encode::{count_leading_zeros, format_log_line, hex_encode};
use hss::order::digest_lt;
use hss::pair::HashPair;
use hss::partition::{make_partitions, total_iterations, ConfigError, Partition};
use hss::reduce::{reduce, ReduceError};

fn partition_pairs(ps: &[Partition]) -> Vec<(usize, usize)> {
    ps.iter().map(|p| (p.lower, p.upper)).collect()
}

#[test]
fn partitions_exact_100_4() {
    let ps = make_partitions(100, 4).unwrap();
    assert_eq!(partition_pairs(&ps), vec![(0, 25), (25, 50), (50, 75), (75, 100)]);
}

#[test]
fn partitions_truncate_remainder() {
    let ps = make_partitions(10, 3).unwrap();
    assert_eq!(partition_pairs(&ps), vec![(0, 3), (3, 6), (6, 9)]);
}

#[test]
fn partitions_zero_workers_rejected() {
    assert_eq!(make_partitions(100, 0), Err(ConfigError::ZeroWorkers));
}

#[test]
fn partitions_disjoint_and_cover() {
    let ps = make_partitions(100, 4).unwrap();
    for x in 0..100usize {
        let owners = ps.iter().filter(|p| p.lower <= x && x < p.upper).count();
        assert_eq!(owners, 1, "index {x} must belong to exactly one partition");
    }
}

#[test]
fn digest_order_is_strict_and_total() {
    let a = vec![0x00, 0xff];
    let b = vec![0x00, 0x01];
    let c = vec![0x7f, 0x00];
    assert!(!digest_lt(&a, &a));
    assert!(digest_lt(&b, &a));
    assert!(!digest_lt(&a, &b));
    assert!(digest_lt(&a, &c));
    assert!(digest_lt(&b, &c));
    // a proper prefix comes first
    assert!(digest_lt(&vec![0x00], &a));
    assert!(!digest_lt(&a, &vec![0x00]));
    // distinct digests compare in exactly one direction
    for (x, y) in [(&a, &b), (&a, &c), (&b, &c)] {
        assert!(digest_lt(x, y) != digest_lt(y, x));
    }
}

fn pair(input: &[u8], hash: &[u8]) -> HashPair {
    HashPair { input: input.to_vec(), hash: hash.to_vec() }
}

#[test]
fn reducer_picks_smallest_digest() {
    let results = vec![
        pair(b"first", &[0x00, 0xff, 0x12]),
        pair(b"second", &[0x00, 0x01, 0x99]),
        pair(b"third", &[0x7f, 0x00, 0x00]),
    ];
    let best = reduce(&results).unwrap();
    assert_eq!(best.input, b"second".to_vec());
    assert_eq!(best.hash, vec![0x00, 0x01, 0x99]);
}

#[test]
fn reducer_rejects_empty_input() {
    assert_eq!(reduce(&Vec::new()).unwrap_err(), ReduceError::NoResults);
}

#[test]
fn reducer_keeps_first_of_a_tie() {
    let results = vec![pair(b"one", &[0x05]), pair(b"two", &[0x05])];
    let best = reduce(&results).unwrap();
    assert_eq!(best.input, b"one".to_vec());
}

#[test]
fn decimal_digits_are_exact() {
    for (n, text) in [(0u64, "0"), (7, "7"), (10, "10"), (12345, "12345"), (u64::MAX, "18446744073709551615")] {
        let mut out = Vec::new();
        hss::candidate::push_decimal(&mut out, n);
        assert_eq!(out, text.as_bytes().to_vec());
    }
}

#[test]
fn candidate_layout_is_exact() {
    let got = hss::candidate::build_candidate(&b"ab".to_vec(), 5);
    assert_eq!(got, b"taxborn/www+taxborn+com+sha/ab/5".to_vec());
}

#[test]
fn hashpair_holds_the_sha256_of_its_input() {
    let p = HashPair::new(b"abc".to_vec());
    let expected = [
        0xba, 0x78, 0x16, 0xbf, 0x8f, 0x01, 0xcf, 0xea, 0x41, 0x41, 0x40, 0xde, 0x5d, 0xae,
        0x22, 0x23, 0xb0, 0x03, 0x61, 0xa3, 0x96, 0x17, 0x7a, 0x9c, 0xb4, 0x10, 0xff, 0x61,
        0xf2, 0x00, 0x15, 0xad,
    ];
    assert_eq!(p.hash, expected.to_vec());
    assert_eq!(p.input, b"abc".to_vec());

    let mut p = p;
    p.update(b"hello".to_vec());
    let reference = ring::digest::digest(&ring::digest::SHA256, b"hello");
    assert_eq!(p.hash, reference.as_ref().to_vec());
}

#[test]
fn hex_encoding_is_exact() {
    assert_eq!(hex_encode(&vec![0x00, 0x1f, 0xab]), b"001fab".to_vec());
    assert_eq!(hex_encode(&Vec::new()), Vec::<u8>::new());
}

#[test]
fn log_line_matches_result() {
    let best = pair(b"taxborn/x/1", &[0xde, 0xad, 0x00]);
    let line = format_log_line(&best);
    assert_eq!(line, b"SHA256:dead00:taxborn/x/1".to_vec());
}

#[test]
fn leading_zero_count() {
    assert_eq!(count_leading_zeros(&b"000abc".to_vec()), 3);
    assert_eq!(count_leading_zeros(&b"abc".to_vec()), 0);
    assert_eq!(count_leading_zeros(&Vec::new()), 0);
    assert_eq!(count_leading_zeros(&b"0000".to_vec()), 4);
}

#[test]
fn total_iterations_powers() {
    assert_eq!(total_iterations(0), Some(1));
    assert_eq!(total_iterations(4), Some(10_000));
    assert_eq!(total_iterations(8), Some(100_000_000));
    assert_eq!(total_iterations(30), None);
}
