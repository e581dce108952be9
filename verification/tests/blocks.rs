//! Reading a revision by its blocks.

use proton_drive_rs::dtos::DecryptedCommonExtendedAttributes;
use proton_drive_rs::error::{is_session_expired, ProtonApiError, ProtonError, ResponseCode};
use proton_drive_rs::revision::{plan_blocks, splice_block};
use proton_drive_rs::transport::rank_block_sizes;

/// Assembles a read from what the reader believes the sizes are and from the
/// blocks the server returns.
fn read_as_reader_would(
    believed_sizes: &Vec<u64>,
    actual_blocks: &[Vec<u8>],
    offset: u64,
    length: u64,
) -> Vec<u8> {
    let file_size: u64 = believed_sizes.iter().sum();
    if length == 0 || offset >= file_size {
        return Vec::new();
    }
    let end = offset.saturating_add(length).min(file_size);
    let mut out = Vec::new();
    for (index, block_start) in plan_blocks(believed_sizes, offset, end) {
        splice_block(&mut out, &actual_blocks[index], block_start, offset, end);
    }
    out
}

fn short_block_file() -> (Vec<u64>, Vec<Vec<u8>>) {
    const SHORT: usize = 3 << 20;
    let truthful = vec![SHORT as u64, SHORT as u64];
    let blocks: Vec<Vec<u8>> = (0..2)
        .map(|b| (0..SHORT).map(|i| ((b * SHORT + i) % 251) as u8).collect())
        .collect();
    (truthful, blocks)
}

fn flatten(blocks: &[Vec<u8>]) -> Vec<u8> {
    blocks.iter().flatten().copied().collect()
}

#[test]
fn truthful_block_sizes_read_correctly() {
    let (truthful, blocks) = short_block_file();
    let whole = flatten(&blocks);
    for (offset, length) in [(0, 1 << 20), (3 << 20, 1 << 20), (4 << 20, 1 << 20)] {
        let got = read_as_reader_would(&truthful, &blocks, offset, length);
        let want = &whole[offset as usize..(offset + length) as usize];
        assert_eq!(got, want, "offset={offset} length={length}");
    }
}

#[test]
fn padded_block_sizes_shift_later_blocks() {
    let (_, blocks) = short_block_file();
    let whole = flatten(&blocks);
    let padded = vec![4u64 << 20; 2];

    let got = read_as_reader_would(&padded, &blocks, 4 << 20, 1 << 20);
    let want = &whole[(4 << 20)..(5 << 20)];
    let shifted = &whole[(3 << 20)..(4 << 20)];

    assert_eq!(
        got.len(),
        1 << 20,
        "full length returned: nothing looks wrong"
    );
    assert_eq!(got, shifted, "bytes come from 1 MiB earlier than requested");
    assert_ne!(got, want, "and they are not the bytes that were asked for");
}

#[test]
fn padded_block_sizes_inflate_file_size() {
    let (truthful, _) = short_block_file();
    let padded = [4u64 << 20; 2];
    assert_eq!(truthful.iter().sum::<u64>(), 6 << 20, "the real size");
    assert_eq!(
        padded.iter().sum::<u64>(),
        8 << 20,
        "the size stat would show"
    );
}

fn common(size: Option<i64>, block_sizes: Option<Vec<i64>>) -> DecryptedCommonExtendedAttributes {
    DecryptedCommonExtendedAttributes {
        size,
        modification_time: None,
        block_sizes,
        digests: None,
    }
}

const MIB: u64 = 1 << 20;

fn message(error: ProtonError) -> String {
    match error {
        ProtonError::InvalidOperation(message) => message,
        other => panic!("expected an invalid operation, got {other:?}"),
    }
}

#[test]
fn block_sizes_from_extended_attributes_are_used_verbatim() {
    let attrs = common(Some(9 * MIB as i64), Some(vec![4 << 20, 4 << 20, 1 << 20]));
    let sizes = rank_block_sizes(Some(&attrs), "rev", 3).expect("sizes resolve");
    assert_eq!(sizes, vec![4 * MIB, 4 * MIB, MIB]);
}

#[test]
fn a_block_sizes_vector_of_the_wrong_length_falls_through_to_the_total() {
    let attrs = common(Some(9 * MIB as i64), Some(vec![4 << 20, 4 << 20]));
    let sizes = rank_block_sizes(Some(&attrs), "rev", 3).expect("sizes resolve");
    assert_eq!(sizes, vec![4 * MIB, 4 * MIB, MIB], "derived from the total");
}

#[test]
fn a_non_positive_block_size_is_rejected_rather_than_clamped() {
    let attrs = common(Some(9 * MIB as i64), Some(vec![4 << 20, 0, 1 << 20]));
    let error = rank_block_sizes(Some(&attrs), "rev", 3).expect_err("must refuse");
    let error = message(error);
    assert!(
        error.contains("non-positive size for block 1"),
        "names the offending block: {error}"
    );
}

#[test]
fn the_total_size_derives_full_blocks_and_a_short_final_one() {
    let attrs = common(Some(9 * MIB as i64), None);
    let sizes = rank_block_sizes(Some(&attrs), "rev", 3).expect("sizes resolve");
    assert_eq!(sizes, vec![4 * MIB, 4 * MIB, MIB]);
    assert_eq!(sizes.iter().sum::<u64>(), 9 * MIB, "sums to the total");
}

#[test]
fn a_total_that_is_a_whole_number_of_blocks_has_no_short_tail() {
    let attrs = common(Some(8 * MIB as i64), None);
    let sizes = rank_block_sizes(Some(&attrs), "rev", 2).expect("sizes resolve");
    assert_eq!(sizes, vec![4 * MIB, 4 * MIB]);
}

#[test]
fn a_single_block_revision_is_assumed_full_size() {
    let sizes = rank_block_sizes(None, "rev", 1).expect("sizes resolve");
    assert_eq!(sizes, vec![4 * MIB]);
    assert_eq!(
        rank_block_sizes(None, "rev", 0).expect("empty resolves"),
        Vec::<u64>::new()
    );
}

#[test]
fn a_multi_block_revision_with_no_size_information_is_an_error() {
    let error = rank_block_sizes(None, "rev-42", 3).expect_err("must refuse");
    let message = message(error);
    assert!(message.contains("rev-42"), "names the revision: {message}");
    assert!(
        message.contains("no usable size information"),
        "says why: {message}"
    );
}

#[test]
fn only_a_401_reads_as_an_expired_session() {
    let api = |status: u16| {
        ProtonError::Api(ProtonApiError {
            code: ResponseCode::Unknown,
            http_status: status,
            message: "nope".to_string(),
            details: None,
        })
    };

    assert!(is_session_expired(&api(401)));
    assert!(
        !is_session_expired(&api(403)),
        "MissingScopes is not expiry"
    );
    assert!(
        !is_session_expired(&api(404)),
        "an expired block url is not"
    );
    assert!(!is_session_expired(&ProtonError::invalid_operation("x")));
}
