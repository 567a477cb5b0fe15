use cargo_docs::engine::{replace_stream, PollResult, ReplacingBufStream};
use cargo_docs::freezer::freeze_chunk;

/// Drive the engine exactly as a pull-driven consumer would: poll; on a
/// request for input hand over the next upstream chunk, or finish when the
/// upstream is exhausted.
fn collect_stream(chunks: &[&[u8]], needle: &[u8], replacement: &[u8]) -> Vec<u8> {
    let mut eng = ReplacingBufStream::new(needle.to_vec(), replacement.to_vec());
    let mut out: Vec<u8> = Vec::new();
    let mut next: usize = 0;
    loop {
        match eng.poll() {
            PollResult::Emit(mut c) => out.append(&mut c),
            PollResult::NeedInput => {
                if next < chunks.len() {
                    eng.push_chunk(chunks[next].to_vec());
                    next += 1;
                } else {
                    break;
                }
            }
        }
    }
    out.extend_from_slice(&eng.finish());
    out
}

#[test]
fn stream() {
    let res = collect_stream(&[b"foobarbaz"], b"bar", b"blammo");
    assert_eq!(res, "fooblammobaz".as_bytes().to_vec());
}

#[test]
fn stream_trailing_prefix() {
    let res = collect_stream(&[b"foobarba"], b"bar", b"blammo");
    assert_eq!(res, "fooblammoba".as_bytes().to_vec());
}

#[test]
fn stream_chunked_same_output() {
    let res = collect_stream(&[b"foo", b"barbaz"], b"bar", b"blammo");
    assert_eq!(res, "fooblammobaz".as_bytes().to_vec());
}

#[test]
fn stream_split_needle() {
    let res = collect_stream(&[b"mat", b"ches"], b"matches", b"found");
    assert_eq!(res, "found".as_bytes().to_vec());
}

#[test]
fn stream_final_flush_strict_prefix() {
    let res = collect_stream(&[b"mat"], b"matches", b"found");
    assert_eq!(res, "mat".as_bytes().to_vec());
}

#[test]
fn stream_replacement_not_rescanned() {
    // The replacement contains the needle; the embedded occurrence must not
    // be replaced again.
    let res = collect_stream(&[b"foobarbaz"], b"bar", b"xbarx");
    assert_eq!(res, "fooxbarxbaz".as_bytes().to_vec());
}

#[test]
fn stream_empty_replacement() {
    let res = collect_stream(&[b"foobarbaz"], b"bar", b"");
    assert_eq!(res, "foobaz".as_bytes().to_vec());
}

#[test]
fn stream_needle_at_end() {
    let res = collect_stream(&[b"foobar"], b"bar", b"blammo");
    assert_eq!(res, "fooblammo".as_bytes().to_vec());
}

#[test]
fn stream_adjacent_occurrences() {
    let res = collect_stream(&[b"barbar"], b"bar", b"x");
    assert_eq!(res, "xx".as_bytes().to_vec());
}

#[test]
fn stream_overlapping_occurrence_across_chunks() {
    // With needle "aab", the stream "aa"+"ab"+"aab" holds occurrences at
    // offsets one and four only; a chunk that is itself a needle prefix must
    // not hide the occurrence that begins inside it.
    let res = collect_stream(&[b"aa", b"ab", b"aab"], b"aab", b"X");
    assert_eq!(res, "aXX".as_bytes().to_vec());
}

#[test]
fn stream_one_byte_chunks_identical() {
    let bytes = b"xmatchesymatcz";
    let whole = collect_stream(&[bytes], b"matches", b"Z");
    let mut singles: Vec<&[u8]> = Vec::new();
    for i in 0..bytes.len() {
        singles.push(&bytes[i..i + 1]);
    }
    let chunked = collect_stream(&singles, b"matches", b"Z");
    assert_eq!(whole, "xZymatcz".as_bytes().to_vec());
    assert_eq!(whole, chunked);
}

#[test]
fn replace_stream_matches_engine() {
    let chunks: Vec<Vec<u8>> = vec![b"foo".to_vec(), b"barba".to_vec(), b"rbaz".to_vec()];
    let out = replace_stream(&chunks, &b"bar".to_vec(), &b"blammo".to_vec());
    assert_eq!(out, "fooblammoblammobaz".as_bytes().to_vec());
    let by_engine = collect_stream(&[b"foo", b"barba", b"rbaz"], b"bar", b"blammo");
    assert_eq!(out, by_engine);
}

#[test]
fn stream_no_input() {
    let res = collect_stream(&[], b"bar", b"blammo");
    assert_eq!(res, Vec::<u8>::new());
}

#[test]
fn stream_empty_chunks_ignored() {
    let res = collect_stream(&[b"foo", b"", b"bar", b"", b"baz"], b"bar", b"blammo");
    assert_eq!(res, "fooblammobaz".as_bytes().to_vec());
}

#[test]
fn freeze_drops_consumed_prefix() {
    let chunk = freeze_chunk(b"hello".to_vec(), 2);
    assert_eq!(chunk, b"llo".to_vec());
    let all = freeze_chunk(b"hello".to_vec(), 0);
    assert_eq!(all, b"hello".to_vec());
    let none = freeze_chunk(b"hello".to_vec(), 5);
    assert_eq!(none, Vec::<u8>::new());
}
