use zenth_utils::utils::security::secure_delete::{
    chunk_lengths, next_chunk, overwrite_passes, prepare_chunk, PassKind, CHUNK_SIZE,
};

#[test]
fn chunks_cover_the_file() {
    assert!(chunk_lengths(0).is_empty());
    assert_eq!(chunk_lengths(10), vec![10]);
    assert_eq!(chunk_lengths(CHUNK_SIZE), vec![CHUNK_SIZE]);
    assert_eq!(chunk_lengths(2 * CHUNK_SIZE + 3), vec![CHUNK_SIZE, CHUNK_SIZE, 3]);
    assert_eq!(next_chunk(100, 40), 60);
    assert_eq!(next_chunk(200_000, 0), CHUNK_SIZE);
}

#[test]
fn passes_in_order() {
    assert_eq!(overwrite_passes(), vec![PassKind::Zeros, PassKind::Ones, PassKind::Random]);
    assert_eq!(PassKind::Zeros.fill_byte(), Some(0x00));
    assert_eq!(PassKind::Ones.fill_byte(), Some(0xFF));
    assert_eq!(PassKind::Random.fill_byte(), None);
}

#[test]
fn chunk_preparation() {
    let mut buf = vec![7u8; 8];
    prepare_chunk(&mut buf, 5, PassKind::Ones);
    assert_eq!(buf, vec![0xFF, 0xFF, 0xFF, 0xFF, 0xFF, 7, 7, 7]);
    prepare_chunk(&mut buf, 3, PassKind::Zeros);
    assert_eq!(buf, vec![0, 0, 0, 0xFF, 0xFF, 7, 7, 7]);

    let mut big = vec![0u8; 64];
    prepare_chunk(&mut big, 32, PassKind::Random);
    assert!(big[32..].iter().all(|&b| b == 0));
    assert!(big[..32].iter().any(|&b| b != 0));
}
