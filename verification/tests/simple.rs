use hss::simple::{build_simple_candidate, simple_search};

fn hex_digest(data: &[u8]) -> Vec<u8> {
    sha256::digest(data).into_bytes()
}

#[test]
fn simple_candidate_layout() {
    assert_eq!(build_simple_candidate(&b"alice".to_vec(), 42), b"alice/42".to_vec());
}

#[test]
fn simple_search_matches_a_reference_scan() {
    let username = b"alice".to_vec();
    let prefix = b"alice/extra".to_vec();
    let iters = 30;
    let got = simple_search(&username, &prefix, iters);

    let mut best = hex_digest(b"alice/0");
    for i in 0..iters {
        let mut input = prefix.clone();
        input.push(b'/');
        input.extend_from_slice(i.to_string().as_bytes());
        let digest = hex_digest(&input);
        if digest < best {
            best = digest;
        }
    }
    assert_eq!(got, best);
    assert_eq!(got.len(), 64);
    assert!(got.iter().all(|b| b.is_ascii_hexdigit()));
}

#[test]
fn simple_search_zero_iterations_keeps_the_seed() {
    let username = b"bob".to_vec();
    let got = simple_search(&username, &username, 0);
    assert_eq!(got, hex_digest(b"bob/0"));
}
