use cargo_docs::matcher::{non_matching_prefix_length, Action};

fn make_bufs(strs: &[&str]) -> Vec<Vec<u8>> {
    let mut bufs = Vec::with_capacity(strs.len());
    for s in strs {
        bufs.push(s.as_bytes().to_vec());
    }
    bufs
}

fn prefix() -> Vec<u8> {
    b"matches".to_vec()
}

#[test]
fn no_bufs() {
    let bufs = make_bufs(&[]);
    assert_eq!(Action::Read, non_matching_prefix_length(&bufs, &prefix()));
}

#[test]
fn one_buf_is_prefix() {
    let bufs = make_bufs(&["matches"]);
    assert_eq!(Action::Replace, non_matching_prefix_length(&bufs, &prefix()));
}

#[test]
fn one_buf_is_prefix_start() {
    let bufs = make_bufs(&["mat"]);
    assert_eq!(Action::Read, non_matching_prefix_length(&bufs, &prefix()));
}

#[test]
fn one_buf_is_not_prefix_shorter() {
    let bufs = make_bufs(&["nope"]);
    assert_eq!(Action::Return(4), non_matching_prefix_length(&bufs, &prefix()));
}

#[test]
fn one_buf_is_not_prefix_longer() {
    let bufs = make_bufs(&["nopenopenope"]);
    assert_eq!(
        Action::Return(12),
        non_matching_prefix_length(&bufs, &prefix())
    );
}

#[test]
fn one_buf_starts_with_prefix() {
    let bufs = make_bufs(&["matchesyesyesyes"]);
    assert_eq!(Action::Replace, non_matching_prefix_length(&bufs, &prefix()));
}

#[test]
fn one_buf_contains_prefix() {
    let bufs = make_bufs(&["yesmatchesyesyes"]);
    assert_eq!(Action::Return(3), non_matching_prefix_length(&bufs, &prefix()));
}

#[test]
fn one_buf_same_length_ends_prefix() {
    let bufs = make_bufs(&["yesmatc"]);
    assert_eq!(Action::Return(3), non_matching_prefix_length(&bufs, &prefix()));
}

#[test]
fn two_buf_exact_match() {
    let bufs = make_bufs(&["mat", "ches"]);
    assert_eq!(Action::Replace, non_matching_prefix_length(&bufs, &prefix()));
}

#[test]
fn two_buf_with_suffix() {
    let bufs = make_bufs(&["mat", "chesyes"]);
    assert_eq!(Action::Replace, non_matching_prefix_length(&bufs, &prefix()));
}

#[test]
fn two_buf_with_prefix() {
    let bufs = make_bufs(&["yesmat", "ches"]);
    assert_eq!(Action::Return(3), non_matching_prefix_length(&bufs, &prefix()));
}

#[test]
fn two_buf_wrong_ending() {
    let bufs = make_bufs(&["mat", "chnope"]);
    assert_eq!(Action::Return(3), non_matching_prefix_length(&bufs, &prefix()));
}

#[test]
fn two_buf_prefix_and_wrong_ending() {
    let bufs = make_bufs(&["nomat", "chnope"]);
    assert_eq!(Action::Return(2), non_matching_prefix_length(&bufs, &prefix()));
}

#[test]
fn three_bufs() {
    let bufs = make_bufs(&["mat", "ch", "es"]);
    assert_eq!(Action::Replace, non_matching_prefix_length(&bufs, &prefix()));
}

#[test]
fn empty_first_buf_released() {
    let bufs = make_bufs(&["", "nope"]);
    assert_eq!(Action::Return(0), non_matching_prefix_length(&bufs, &prefix()));
}

#[test]
fn overlapping_prefix_not_skipped() {
    // An occurrence may begin inside a chunk that is itself a prefix of the
    // needle: with needle "aab", the buffered bytes "aa"+"ab" hold an
    // occurrence at offset one, so at most one byte may be released.
    let bufs = make_bufs(&["aa", "ab"]);
    assert_eq!(
        Action::Return(1),
        non_matching_prefix_length(&bufs, &b"aab".to_vec())
    );
}
