use bufhash::partitioned::Simple;
use bufhash::PartitionedHasher;

fn le_word(b: &[u8]) -> u64 {
    let mut word = [0u8; 8];
    word[..b.len()].copy_from_slice(b);
    u64::from_le_bytes(word)
}

fn digest_in_pieces(data: &[u8], cuts: &[usize]) -> (u64, Vec<u8>) {
    let mut hasher = PartitionedHasher::new(Simple::default());
    let mut start = 0;
    for &cut in cuts {
        hasher.write(&data[start..cut]);
        start = cut;
    }
    hasher.write(&data[start..]);
    (hasher.finish(), hasher.inner_vec().clone())
}

#[test]
fn it_works_with_single_call() {
    let mut hasher = PartitionedHasher::new(Simple::default());
    assert_eq!(hasher.inner_vec().capacity(), 8);
    assert_eq!(hasher.inner_vec().len(), 0);

    hasher.write(b"Hello, world!");
    assert_eq!(hasher.inner_vec().capacity(), 8);
    assert_eq!(hasher.inner_vec().len(), 5);

    assert_eq!(hasher.finish(), 0xE405_8DED_8D8C_A900);
}

#[test]
fn it_works_with_multiple_calls() {
    let mut hasher = PartitionedHasher::new(Simple::default());
    assert_eq!(hasher.inner_vec().capacity(), 8);
    assert_eq!(hasher.inner_vec().len(), 0);

    hasher.write(b"H");
    assert_eq!(hasher.inner_vec().capacity(), 8);
    assert_eq!(hasher.inner_vec().len(), 1);

    hasher.write(b"e");
    assert_eq!(hasher.inner_vec().capacity(), 8);
    assert_eq!(hasher.inner_vec().len(), 2);

    hasher.write(b"l");
    assert_eq!(hasher.inner_vec().capacity(), 8);
    assert_eq!(hasher.inner_vec().len(), 3);

    hasher.write(b"l");
    assert_eq!(hasher.inner_vec().capacity(), 8);
    assert_eq!(hasher.inner_vec().len(), 4);

    hasher.write(b"o");
    assert_eq!(hasher.inner_vec().capacity(), 8);
    assert_eq!(hasher.inner_vec().len(), 5);

    hasher.write(b",");
    assert_eq!(hasher.inner_vec().capacity(), 8);
    assert_eq!(hasher.inner_vec().len(), 6);

    hasher.write(b" ");
    assert_eq!(hasher.inner_vec().capacity(), 8);
    assert_eq!(hasher.inner_vec().len(), 7);

    hasher.write(b"w");
    assert_eq!(hasher.inner_vec().capacity(), 8);
    assert_eq!(hasher.inner_vec().len(), 0);

    hasher.write(b"o");
    assert_eq!(hasher.inner_vec().capacity(), 8);
    assert_eq!(hasher.inner_vec().len(), 1);

    hasher.write(b"r");
    assert_eq!(hasher.inner_vec().capacity(), 8);
    assert_eq!(hasher.inner_vec().len(), 2);

    hasher.write(b"l");
    assert_eq!(hasher.inner_vec().capacity(), 8);
    assert_eq!(hasher.inner_vec().len(), 3);

    hasher.write(b"d");
    assert_eq!(hasher.inner_vec().capacity(), 8);
    assert_eq!(hasher.inner_vec().len(), 4);

    hasher.write(b"!");
    assert_eq!(hasher.inner_vec().capacity(), 8);
    assert_eq!(hasher.inner_vec().len(), 5);

    assert_eq!(hasher.finish(), 0xE405_8DED_8D8C_A900);
}

#[test]
fn byte_at_a_time_matches_formula() {
    let data = b"Hello, world!";
    // The five tail bytes are not summed: only the shift reflects them.
    let expected = le_word(&data[..8]) << 5;
    assert_eq!(expected, 0xE405_8DED_8D8C_A900);

    let mut one = PartitionedHasher::new(Simple::default());
    one.write(data);
    let mut bytewise = PartitionedHasher::new(Simple::default());
    for b in data.iter() {
        bytewise.write(&[*b]);
    }
    assert_eq!(one.finish(), expected);
    assert_eq!(bytewise.finish(), expected);
}

#[test]
fn split_invariance_over_many_cuts() {
    let data: Vec<u8> = (0u8..37).map(|i| i.wrapping_mul(41).wrapping_add(3)).collect();
    let whole = digest_in_pieces(&data, &[]);
    let cut_sets: Vec<Vec<usize>> = vec![
        vec![1],
        vec![7],
        vec![8],
        vec![9],
        vec![3, 5, 20],
        vec![7, 8, 15, 16, 17],
        vec![0, 0, 37],
        vec![8, 16, 24, 32],
        (1..37).collect(),
    ];
    for cuts in cut_sets.iter() {
        assert_eq!(digest_in_pieces(&data, cuts), whole);
    }
}

#[test]
fn carry_holds_last_bytes() {
    let data: Vec<u8> = (10u8..40).collect();
    let mut hasher = PartitionedHasher::new(Simple::default());
    let mut total = 0;
    for piece in [3usize, 0, 6, 1, 9, 11] {
        hasher.write(&data[total..total + piece]);
        total += piece;
        let carried = total % 8;
        assert!(hasher.inner_vec().len() < 8);
        assert_eq!(hasher.inner_vec().as_slice(), &data[total - carried..total]);
    }
}

#[test]
fn finish_is_repeatable() {
    let mut hasher = PartitionedHasher::new(Simple::default());
    hasher.write(b"abcdefghijk");
    let first = hasher.finish();
    assert_eq!(hasher.finish(), first);
    assert_eq!(hasher.finish(), first);
    assert_eq!(hasher.inner_vec().as_slice(), b"ijk");
    assert_eq!(first, le_word(b"abcdefgh") << 3);
}

#[test]
fn empty_stream_digests_empty_tail() {
    let hasher = PartitionedHasher::new(Simple::default());
    assert_eq!(hasher.finish(), 0);
    let seeded = PartitionedHasher::new(Simple(0x1234));
    assert_eq!(seeded.finish(), 0x1234);
    assert!(seeded.inner_vec().is_empty());
}

#[test]
fn empty_write_is_a_no_op() {
    let mut hasher = PartitionedHasher::new(Simple::default());
    hasher.write(b"abc");
    let before = hasher.finish();
    hasher.write(b"");
    assert_eq!(hasher.finish(), before);
    assert_eq!(hasher.inner_vec().as_slice(), b"abc");
}

#[test]
fn boundary_exact_stream_leaves_nothing_carried() {
    let data = b"0123456789abcdef";
    let mut hasher = PartitionedHasher::new(Simple::default());
    hasher.write(&data[..5]);
    hasher.write(&data[5..]);
    assert!(hasher.inner_vec().is_empty());
    let sum = le_word(&data[..8]).wrapping_add(le_word(&data[8..]));
    assert_eq!(hasher.finish(), sum);
}

#[test]
fn straddling_write_flushes_one_partition() {
    let mut hasher = PartitionedHasher::new(Simple::default());
    hasher.write(b"1234567");
    assert_eq!(hasher.inner_vec().len(), 7);
    assert_eq!(hasher.finish(), 0);
    hasher.write(b"8");
    assert!(hasher.inner_vec().is_empty());
    assert_eq!(hasher.finish(), le_word(b"12345678"));
}

#[test]
fn long_write_after_pending_carry() {
    let mut hasher = PartitionedHasher::new(Simple::default());
    hasher.write(b"ab");
    hasher.write(b"cdefghijklmnopqrstu");
    assert_eq!(hasher.inner_vec().as_slice(), b"qrstu");
    let sum = le_word(b"abcdefgh").wrapping_add(le_word(b"ijklmnop"));
    assert_eq!(hasher.finish(), sum << 5);
}

#[test]
fn partitions_are_read_little_endian() {
    let mut hasher = PartitionedHasher::new(Simple::default());
    hasher.write(&[1, 2, 3, 4, 5, 6, 7, 8]);
    assert_eq!(hasher.finish(), 0x0807_0605_0403_0201);
}

#[test]
fn sum_wraps_around() {
    let mut hasher = PartitionedHasher::new(Simple(u64::MAX));
    hasher.write(&[2, 0, 0, 0, 0, 0, 0, 0]);
    assert_eq!(hasher.finish(), 1);
}

#[test]
fn default_adapter_starts_empty() {
    let mut hasher: PartitionedHasher<8, Simple> = PartitionedHasher::default();
    assert!(hasher.inner_vec().is_empty());
    hasher.write(b"Hello, world!");
    assert_eq!(hasher.finish(), 0xE405_8DED_8D8C_A900);
}
