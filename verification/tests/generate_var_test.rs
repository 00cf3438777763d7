use zenth_utils::utils::security::generate_var::{
    apply_permutation, combine_digests, crc_checksum, database_name, derive_final_key,
};

#[test]
fn combine_xors_digests() {
    let sha3 = [0b1100u8, 0xFF, 0x0F, 0x55];
    let keccak = [0b1010u8, 0x0F, 0xF0];
    let crc = [0x01u8, 0x01];
    assert_eq!(combine_digests(&sha3, &keccak, &crc), vec![0b0111, 0xF1, 0xFF]);
    assert_eq!(combine_digests(&sha3, &keccak, &[]), vec![0b0110, 0xF0, 0xFF]);
    assert_eq!(combine_digests(&[], &keccak, &crc), Vec::<u8>::new());
}

#[test]
fn checksum_wraps() {
    assert_eq!(crc_checksum(&[]), 0);
    assert_eq!(crc_checksum(&[1, 2, 250]), 253);
    assert_eq!(crc_checksum(&[255u8; 1000]), 255_000);
}

#[test]
fn permutation_examples() {
    let mut v: Vec<u8> = (0..8).collect();
    apply_permutation(&mut v, 5);
    assert_eq!(v, vec![5, 6, 3, 2, 7, 0, 1, 4]);

    let mut w: Vec<u8> = (0..32).collect();
    apply_permutation(&mut w, 1000);
    assert_eq!(
        w,
        vec![
            0, 1, 2, 5, 4, 19, 6, 17, 8, 15, 10, 11, 12, 27, 14, 25, 16, 23, 18, 3, 20, 21, 22, 7,
            24, 9, 26, 29, 28, 13, 30, 31
        ]
    );

    let mut u = vec![1u8, 2, 3];
    apply_permutation(&mut u, 0);
    assert_eq!(u, vec![1, 2, 3]);
}

#[test]
fn permutation_keeps_the_bytes() {
    let input: Vec<u8> = (0..32).map(|x| (x * 37 % 11) as u8).collect();
    let mut v = input.clone();
    apply_permutation(&mut v, 123_456);
    let mut a = input.clone();
    let mut b = v.clone();
    a.sort();
    b.sort();
    assert_eq!(a, b);
}

#[test]
fn final_key_is_permuted_prefix() {
    let digest: Vec<u8> = (0..64).collect();
    let crc = [200u8, 200, 200, 200, 200, 0];
    let derived = derive_final_key(&digest, &crc);
    let mut expected: Vec<u8> = (0..32).collect();
    apply_permutation(&mut expected, 1000);
    assert_eq!(derived.key, expected);
    assert_eq!(derived.leftover, (32..64).collect::<Vec<u8>>());
}

#[test]
fn database_name_keeps_sixteen_alphanumerics() {
    assert_eq!(
        database_name("ab+/cd==ef12GH34ij56KL78mn"),
        "db_abcdef12GH34ij56.sqlite"
    );
    assert_eq!(database_name("a+b/"), "db_ab.sqlite");
    assert_eq!(database_name(""), "db_.sqlite");
}
