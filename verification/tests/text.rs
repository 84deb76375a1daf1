use yeehaw::digest::{
    digest_text, hash_file, initial_digest, xxh3_64_with_seed, ContentHasher, BLOCK,
};
use yeehaw::text::{hex16, joined, leading_chars, zero_padded_decimal};

#[test]
fn zero_padded_decimal_pads_to_the_width() {
    assert_eq!(zero_padded_decimal(1, 4), "0001");
    assert_eq!(zero_padded_decimal(42, 4), "0042");
    assert_eq!(zero_padded_decimal(999, 4), "0999");
    assert_eq!(zero_padded_decimal(1000, 4), "1000");
    assert_eq!(zero_padded_decimal(9999, 4), "9999");
    assert_eq!(zero_padded_decimal(7, 3), "007");
    assert_eq!(zero_padded_decimal(0, 4), "0000");
    assert_eq!(zero_padded_decimal(0, 3), "000");
}

#[test]
fn zero_padded_decimal_writes_a_long_number_in_full() {
    assert_eq!(zero_padded_decimal(10000, 4), "10000");
    assert_eq!(zero_padded_decimal(123456, 4), "123456");
    assert_eq!(zero_padded_decimal(1000, 3), "1000");
    assert_eq!(zero_padded_decimal(5, 0), "5");
    assert_eq!(zero_padded_decimal(0, 0), "0");
    assert_eq!(zero_padded_decimal(usize::MAX, 4), format!("{:04}", usize::MAX));
}

#[test]
fn zero_padded_decimal_agrees_with_the_standard_format() {
    for number in 0..2500usize {
        assert_eq!(zero_padded_decimal(number * 7, 4), format!("{:04}", number * 7));
        assert_eq!(zero_padded_decimal(number, 3), format!("{:03}", number));
    }
}

#[test]
fn hex16_is_sixteen_lower_case_digits() {
    assert_eq!(hex16(0), "0000000000000000");
    assert_eq!(hex16(1), "0000000000000001");
    assert_eq!(hex16(0xdead_beef), "00000000deadbeef");
    assert_eq!(hex16(0x0123_4567_89ab_cdef), "0123456789abcdef");
    assert_eq!(hex16(u64::MAX), "ffffffffffffffff");
}

#[test]
fn hex16_agrees_with_the_standard_format() {
    let mut value: u64 = 0x9e37_79b9_7f4a_7c15;
    for _ in 0..1000 {
        assert_eq!(hex16(value), format!("{:016x}", value));
        value = value.wrapping_mul(6364136223846793005).wrapping_add(1442695040888963407);
    }
}

#[test]
fn leading_chars_takes_a_prefix() {
    assert_eq!(leading_chars("0123456789abcdef", 8), "01234567");
    assert_eq!(leading_chars("holiday", 6), "holida");
    assert_eq!(leading_chars("abcdef", 6), "abcdef");
    assert_eq!(leading_chars("abc", 0), "");
}

#[test]
fn leading_chars_of_a_short_text_is_the_text() {
    assert_eq!(leading_chars("a", 6), "a");
    assert_eq!(leading_chars("", 8), "");
}

#[test]
fn leading_chars_counts_characters() {
    assert_eq!(leading_chars("äöüäöüäöü", 6), "äöüäöü");
    assert_eq!(leading_chars("日本語", 2), "日本");
}

#[test]
fn joined_puts_two_texts_together() {
    assert_eq!(joined("group_", "0001"), "group_0001");
    assert_eq!(joined("", ""), "");
}

#[test]
fn initial_digest_is_the_digest_of_no_bytes() {
    assert_eq!(initial_digest(), 0x2d06_8005_38d3_94c2);
    assert_eq!(initial_digest(), xxhash_rust::xxh3::xxh3_64(b""));
}

#[test]
fn xxh3_64_with_seed_hashes_the_seed_in_front_of_the_data() {
    let seed: u64 = 0x0102_0304_0506_0708;
    let mut bytes = vec![8u8, 7, 6, 5, 4, 3, 2, 1];
    bytes.extend_from_slice(b"content");
    assert_eq!(xxh3_64_with_seed(b"content", seed), xxhash_rust::xxh3::xxh3_64(&bytes));
    assert_ne!(xxh3_64_with_seed(b"content", seed), seed);
}

#[test]
fn hash_file_of_an_empty_file() {
    assert_eq!(hash_file(&Vec::new()), "2d06800538d394c2");
}

fn reference_digest(content: &[u8]) -> u64 {
    let mut digest = xxhash_rust::xxh3::xxh3_64(b"");
    for block in content.chunks(8192) {
        let mut bytes = digest.to_le_bytes().to_vec();
        bytes.extend_from_slice(block);
        digest = xxhash_rust::xxh3::xxh3_64(&bytes);
    }
    digest
}

fn sample(length: usize) -> Vec<u8> {
    (0..length).map(|position| (position * 31 % 251) as u8).collect()
}

#[test]
fn block_is_eight_kibibytes() {
    assert_eq!(BLOCK, 8192);
}

#[test]
fn hash_file_folds_the_blocks_in_order() {
    for length in [1, 11, 8191, 8192, 8193, 16384, 20000, 40000] {
        let content = sample(length);
        let expected = format!("{:016x}", reference_digest(&content));
        assert_eq!(hash_file(&vec![content]), expected);
    }
    let chunks = vec![b"first".to_vec(), b"second".to_vec()];
    let swapped = vec![b"second".to_vec(), b"first".to_vec()];
    assert_eq!(hash_file(&chunks), format!("{:016x}", reference_digest(b"firstsecond")));
    assert_ne!(hash_file(&chunks), hash_file(&swapped));
}

#[test]
fn hash_file_does_not_depend_on_the_split() {
    let content = sample(30000);
    let whole = hash_file(&vec![content.clone()]);
    for size in [1usize, 7, 100, 4096, 8191, 8192, 8193, 10000, 29999] {
        let chunks: Vec<Vec<u8>> = content.chunks(size).map(|chunk| chunk.to_vec()).collect();
        assert_eq!(hash_file(&chunks), whole);
    }
    let with_gaps = vec![Vec::new(), content[..5].to_vec(), Vec::new(), content[5..].to_vec()];
    assert_eq!(hash_file(&with_gaps), whole);
}

#[test]
fn content_hasher_takes_the_bytes_in_any_pieces() {
    let content = sample(25000);
    let mut hasher = ContentHasher::new();
    let mut position = 0;
    let mut size = 1;
    while position < content.len() {
        let end = (position + size).min(content.len());
        hasher = hasher.update(&content[position..end]);
        position = end;
        size = size * 3 + 1;
    }
    assert_eq!(hasher.finish(), reference_digest(&content));
    assert_eq!(ContentHasher::new().update(&content).finish(), reference_digest(&content));
}

#[test]
fn content_hasher_of_nothing() {
    assert_eq!(ContentHasher::new().finish(), initial_digest());
    assert_eq!(ContentHasher::new().update(b"").finish(), 0x2d06_8005_38d3_94c2);
}

#[test]
fn hash_file_is_the_same_for_the_same_content() {
    let content = vec![b"x".to_vec()];
    let again = vec![b"x".to_vec()];
    assert_eq!(hash_file(&content), hash_file(&again));
    assert_eq!(hash_file(&content).len(), 16);
}

#[test]
fn hash_file_changes_with_a_single_byte() {
    let base: Vec<u8> = (0..=255u8).collect();
    let hash = hash_file(&vec![base.clone()]);
    for position in 0..base.len() {
        let mut changed = base.clone();
        changed[position] ^= 1;
        assert_ne!(hash_file(&vec![changed]), hash);
    }
}

#[test]
fn digest_text_writes_the_digest_in_hex() {
    assert_eq!(digest_text(0x2d06_8005_38d3_94c2), "2d06800538d394c2");
    assert_eq!(digest_text(255), "00000000000000ff");
}
