use hss::pair::HashPair;
use hss::partition::make_partitions;
use hss::reduce::reduce;
use hss::rng::worker_checkpoints;
use hss::search::{run_worker, search_range};

fn candidate(salt: &[u8], i: usize) -> Vec<u8> {
    let mut v = b"taxborn/www+taxborn+com+sha/".to_vec();
    v.extend_from_slice(salt);
    v.push(b'/');
    v.extend_from_slice(i.to_string().as_bytes());
    v
}

fn sha(data: &[u8]) -> Vec<u8> {
    ring::digest::digest(&ring::digest::SHA256, data).as_ref().to_vec()
}

/// The reference scan: the best pair over `[lower, upper)` for a salt,
/// starting from the sentinel.
fn reference_best(salt: &[u8], lower: usize, upper: usize) -> (Vec<u8>, Vec<u8>) {
    let mut best = (b"Initial value".to_vec(), sha(b"Initial value"));
    for i in lower..upper {
        let input = candidate(salt, i);
        let digest = sha(&input);
        if digest < best.1 {
            best = (input, digest);
        }
    }
    best
}

#[test]
fn search_is_deterministic_for_a_fixed_salt() {
    let salt = b"ab".to_vec();
    let none = Vec::new();
    let (first, _) = search_range(&salt, 0, 20, &none);
    let (second, _) = search_range(&salt, 0, 20, &none);
    assert_eq!(first.input, second.input);
    assert_eq!(first.hash, second.hash);
}

#[test]
fn search_matches_a_reference_scan() {
    let salt = b"xy".to_vec();
    let none = Vec::new();
    let (best, snaps) = search_range(&salt, 0, 25, &none);
    let expected = reference_best(b"xy", 0, 25);
    assert_eq!(best.input, expected.0);
    assert_eq!(best.hash, expected.1);
    assert!(snaps.is_empty());
    // the winner is no larger than any candidate digest of the range
    for i in 0..25 {
        assert!(best.hash <= sha(&candidate(b"xy", i)));
    }
}

#[test]
fn snapshots_record_the_running_best() {
    let salt = b"zz".to_vec();
    let checkpoints = vec![7, 3];
    let (_, snaps) = search_range(&salt, 0, 10, &checkpoints);
    assert_eq!(snaps.len(), 2);
    assert_eq!(snaps[0].iteration, 3);
    assert_eq!(snaps[1].iteration, 7);
    for snap in &snaps {
        let held = reference_best(b"zz", 0, snap.iteration);
        assert_eq!(snap.input, held.0);
        assert_eq!(snap.digest, held.1);
    }
}

#[test]
fn checkpoints_are_distinct_and_in_bounds() {
    let mut rng = rand::thread_rng();
    let cps = worker_checkpoints(&mut rng, 10, 20, 5);
    assert_eq!(cps.len(), 5);
    for &c in &cps {
        assert!((10..30).contains(&c));
    }
    let mut sorted = cps.clone();
    sorted.sort();
    sorted.dedup();
    assert_eq!(sorted.len(), 5, "checkpoints must be distinct");
}

#[test]
fn worker_result_is_the_partition_minimum() {
    let w = run_worker(5, 15, 12, 2);
    assert_eq!(w.salt.len(), 12);
    assert!(w.salt.iter().all(|b| b.is_ascii_alphanumeric()));
    assert_eq!(w.checkpoints.len(), 2);
    assert_eq!(w.snapshots.len(), 2);
    let expected = reference_best(&w.salt, 5, 15);
    assert_eq!(w.best.input, expected.0);
    assert_eq!(w.best.hash, expected.1);
    for pair in w.snapshots.windows(2) {
        assert!(pair[0].iteration < pair[1].iteration);
    }
    for snap in &w.snapshots {
        assert!((5..15).contains(&snap.iteration));
        assert!(w.checkpoints.contains(&snap.iteration));
    }
}

#[test]
fn full_run_finds_the_global_minimum() {
    let total = 100;
    let workers = 4;
    let partitions = make_partitions(total, workers).unwrap();
    assert_eq!(partitions.len(), 4);
    let salts: [&[u8]; 4] = [b"aaaa", b"bbbb", b"cccc", b"dddd"];
    let none = Vec::new();
    let mut results: Vec<HashPair> = Vec::new();
    for (p, salt) in partitions.iter().zip(salts.iter()) {
        assert_eq!(p.upper - p.lower, 25, "each worker hashes exactly 25 candidates");
        let (best, _) = search_range(&salt.to_vec(), p.lower, p.upper, &none);
        results.push(best);
    }
    let global = reduce(&results).unwrap();
    // the reduced digest is no larger than any of the 100 candidate digests
    for (p, salt) in partitions.iter().zip(salts.iter()) {
        for i in p.lower..p.upper {
            assert!(global.hash <= sha(&candidate(salt, i)));
        }
    }
    // and it equals the reference minimum over the whole space
    let reference = partitions
        .iter()
        .zip(salts.iter())
        .map(|(p, salt)| reference_best(salt, p.lower, p.upper))
        .min_by(|a, b| a.1.cmp(&b.1))
        .unwrap();
    assert_eq!(global.hash, reference.1);
}
