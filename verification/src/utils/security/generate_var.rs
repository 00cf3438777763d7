use vstd::prelude::*;
use vstd::string::*;
use crate::utils::bytes::copy_range;
use crate::utils::text::{chars_of, is_ascii_alphanumeric, is_ascii_alphanumeric_char};

verus! {

/// Length of the database key cut from the final digest.
pub const DATABASE_KEY_SIZE: usize = 32;

/// Number of characters of the encoded leftover digest kept in the database name.
pub const DATABASE_NAME_CHARS: usize = 16;

/// The combination of the three digests: the first two XORed byte by byte over their
/// common length, and the third XORed into the front of the result as far as both reach.
pub open spec fn combined_digest(sha3: Seq<u8>, keccak: Seq<u8>, crc: Seq<u8>) -> Seq<u8> {
    let n = if sha3.len() <= keccak.len() {
        sha3.len()
    } else {
        keccak.len()
    };
    Seq::new(
        n,
        |i: int|
            if i < crc.len() {
                sha3[i] ^ keccak[i] ^ crc[i]
            } else {
                sha3[i] ^ keccak[i]
            },
    )
}

/// The sum of the bytes of `s`.
pub open spec fn byte_sum(s: Seq<u8>) -> nat
    decreases s.len(),
{
    if s.len() == 0 {
        0
    } else {
        byte_sum(s.drop_last()) + s.last() as nat
    }
}

/// The checksum of the CRC digest: the sum of its bytes modulo 2^32.
pub open spec fn checksum(s: Seq<u8>) -> u32 {
    (byte_sum(s) % 0x1_0000_0000) as u32
}

/// `s` with the elements at `i` and `j` exchanged.
pub open spec fn swap_at(s: Seq<u8>, i: int, j: int) -> Seq<u8> {
    s.update(i, s[j]).update(j, s[i])
}

/// The bytes and the index after the first `steps` swaps of the permutation of `d` by
/// `seed`. The index starts at `seed % len`; step `i` exchanges position `i` with position
/// `(index + (7 i) % len) % len`, then moves the index to `(31 index + seed) % len`.
pub open spec fn permutation_state(d: Seq<u8>, seed: u32, steps: nat) -> (Seq<u8>, int)
    decreases steps,
{
    let len = d.len() as int;
    if steps == 0 {
        (d, (seed % (d.len() as u32)) as int)
    } else {
        let (s, index) = permutation_state(d, seed, (steps - 1) as nat);
        let i = steps - 1;
        let j = (index + (i * 7) % len) % len;
        (swap_at(s, i, j), (index * 31 + seed) % len)
    }
}

/// `d` after `apply_permutation` with `seed`: one swap for each position.
pub open spec fn permuted(d: Seq<u8>, seed: u32) -> Seq<u8> {
    permutation_state(d, seed, d.len()).0
}

/// The conditions under which `apply_permutation` runs without an arithmetic fault: the
/// length, taken as a `u32`, is not zero, and `31 index + seed` fits in a `usize` for every
/// index below the length.
pub open spec fn permutation_fits(len: nat, seed: u32) -> bool {
    &&& (len as u32) != 0
    &&& 31 * (len - 1) + seed <= usize::MAX
}

/// The characters of `s` that are ASCII letters or digits, in order.
pub open spec fn keep_alphanumeric(s: Seq<char>) -> Seq<char>
    decreases s.len(),
{
    if s.len() == 0 {
        Seq::empty()
    } else {
        keep_alphanumeric(s.drop_last()) + if is_ascii_alphanumeric_char(s.last()) {
            seq![s.last()]
        } else {
            Seq::empty()
        }
    }
}

/// The first `n` elements of `s`, or all of `s` when it is shorter.
pub open spec fn at_most(s: Seq<char>, n: nat) -> Seq<char> {
    if s.len() <= n {
        s
    } else {
        s.take(n as int)
    }
}

/// The database file name made from the encoded leftover digest:
/// `db_` + its first 16 ASCII letters and digits + `.sqlite`.
pub open spec fn database_file_name(encoded: Seq<char>) -> Seq<char> {
    "db_"@ + at_most(keep_alphanumeric(encoded), DATABASE_NAME_CHARS as nat) + ".sqlite"@
}

/// XORs the SHA-3 and Keccak digests, then XORs the CRC digest into the front.
pub fn combine_digests(sha3: &[u8], keccak: &[u8], crc: &[u8]) -> (combined: Vec<u8>)
    ensures
        combined@ == combined_digest(sha3@, keccak@, crc@),
{
    let n: usize = if sha3.len() <= keccak.len() {
        sha3.len()
    } else {
        keccak.len()
    };
    let mut combined: Vec<u8> = Vec::new();
    let mut i: usize = 0;
    while i < n
        invariant
            n <= sha3@.len(),
            n <= keccak@.len(),
            i <= n,
            combined@.len() == i,
            forall|k: int| 0 <= k < i ==> combined@[k] == sha3@[k] ^ keccak@[k],
        decreases n - i,
    {
        combined.push(sha3[i] ^ keccak[i]);
        i = i + 1;
    }
    let mut i: usize = 0;
    while i < crc.len()
        invariant
            n == combined@.len(),
            n <= sha3@.len(),
            n <= keccak@.len(),
            n == combined_digest(sha3@, keccak@, crc@).len(),
            forall|k: int|
                0 <= k < n ==> #[trigger] combined@[k] == if k < i && k < crc@.len() {
                    sha3@[k] ^ keccak@[k] ^ crc@[k]
                } else {
                    sha3@[k] ^ keccak@[k]
                },
        decreases crc.len() - i,
    {
        if i < combined.len() {
            let b: u8 = combined[i] ^ crc[i];
            combined.set(i, b);
        }
        i = i + 1;
    }
    assert(combined@ =~= combined_digest(sha3@, keccak@, crc@));
    combined
}

proof fn lemma_byte_sum_step(s: Seq<u8>, i: int)
    requires
        0 <= i < s.len(),
    ensures
        byte_sum(s.take(i + 1)) == byte_sum(s.take(i)) + s[i] as nat,
{
    assert(s.take(i + 1).drop_last() =~= s.take(i));
}

/// Adds up the bytes of the CRC digest with wrap-around at 2^32.
pub fn crc_checksum(crc: &[u8]) -> (sum: u32)
    ensures
        sum == checksum(crc@),
{
    let mut sum: u32 = 0;
    let mut i: usize = 0;
    while i < crc.len()
        invariant
            i <= crc@.len(),
            sum as nat == byte_sum(crc@.take(i as int)) % 0x1_0000_0000,
        decreases crc.len() - i,
    {
        proof {
            lemma_byte_sum_step(crc@, i as int);
            vstd::arithmetic::div_mod::lemma_add_mod_noop(
                byte_sum(crc@.take(i as int)) as int,
                crc@[i as int] as int,
                0x1_0000_0000,
            );
        }
        sum = sum.wrapping_add(crc[i] as u32);
        i = i + 1;
    }
    assert(crc@.take(crc@.len() as int) =~= crc@);
    sum
}

proof fn lemma_swap_keeps_multiset(s: Seq<u8>, i: int, j: int)
    requires
        0 <= i < s.len(),
        0 <= j < s.len(),
    ensures
        swap_at(s, i, j).to_multiset() == s.to_multiset(),
        swap_at(s, i, j).len() == s.len(),
{
    broadcast use vstd::seq_lib::to_multiset_update;
    broadcast use vstd::multiset::group_multiset_axioms;
    broadcast use vstd::multiset::group_multiset_properties;

    let t = s.update(i, s[j]);
    assert(t[j] == s[j]);
    assert(s.to_multiset().count(s[i]) > 0) by {
        broadcast use vstd::seq_lib::to_multiset_contains;
        assert(s.contains(s[i]));
    }
    assert(t.to_multiset() == s.to_multiset().insert(s[j]).remove(s[i]));
    assert(t.update(j, s[i]).to_multiset() == t.to_multiset().insert(s[i]).remove(t[j]));
    assert(swap_at(s, i, j).to_multiset() =~= s.to_multiset());
}

proof fn lemma_permutation_state_shape(d: Seq<u8>, seed: u32, steps: nat)
    requires
        steps <= d.len(),
        d.len() <= usize::MAX,
        (d.len() as u32) != 0,
    ensures
        permutation_state(d, seed, steps).0.len() == d.len(),
        permutation_state(d, seed, steps).0.to_multiset() == d.to_multiset(),
        0 <= permutation_state(d, seed, steps).1 < d.len(),
    decreases steps,
{
    if steps > 0 {
        lemma_permutation_state_shape(d, seed, (steps - 1) as nat);
        let (s, index) = permutation_state(d, seed, (steps - 1) as nat);
        let len = d.len() as int;
        let i = steps - 1;
        let j = (index + (i * 7) % len) % len;
        lemma_swap_keeps_multiset(s, i, j);
    } else {
        let l: usize = d.len() as usize;
        assert((l as u32) <= l) by (bit_vector);
    }
}

/// Shuffles `data` in place by a walk driven by `seed`: position `i` is exchanged with
/// `(index + (7 i) % len) % len`, the index starting at `seed % len` and moving to
/// `(31 index + seed) % len` after each exchange.
pub fn apply_permutation(data: &mut Vec<u8>, seed: u32)
    requires
        permutation_fits(old(data)@.len(), seed),
    ensures
        final(data)@ == permuted(old(data)@, seed),
{
    let len: usize = data.len();
    proof {
        assert((len as u32) <= len) by (bit_vector);
    }
    let mut index: usize = (seed % (len as u32)) as usize;
    let mut i: usize = 0;
    while i < len
        invariant
            len == old(data)@.len(),
            permutation_fits(len as nat, seed),
            i <= len,
            (data@, index as int) == permutation_state(old(data)@, seed, i as nat),
            index < len,
        decreases len - i,
    {
        proof {
            lemma_permutation_state_shape(old(data)@, seed, i as nat);
            assert(i * 7 <= 31 * (len - 1)) by (nonlinear_arith)
                requires
                    i < len,
            ;
            assert(index * 31 <= 31 * (len - 1)) by (nonlinear_arith)
                requires
                    index < len,
            ;
        }
        let swap_index: usize = (index + (i * 7) % len) % len;
        let a: u8 = data[i];
        let b: u8 = data[swap_index];
        data.set(i, b);
        data.set(swap_index, a);
        proof {
            vstd::arithmetic::div_mod::lemma_small_mod(
                (index * 31) as nat,
                (usize::MAX + 1) as nat,
            );
        }
        index = (index.wrapping_mul(31) + seed as usize) % len;
        i = i + 1;
        assert(data@ =~= permutation_state(old(data)@, seed, i as nat).0);
    }
}

/// A permutation keeps the bytes: it only moves them.
pub proof fn lemma_permutation_keeps_bytes(d: Seq<u8>, seed: u32)
    requires
        d.len() <= usize::MAX,
        (d.len() as u32) != 0,
    ensures
        permuted(d, seed).len() == d.len(),
        permuted(d, seed).to_multiset() == d.to_multiset(),
{
    lemma_permutation_state_shape(d, seed, d.len());
}

/// `1 + 31 + 31^2 + ... + 31^k`.
pub open spec fn powers_of_31(k: nat) -> int
    decreases k,
{
    if k == 0 {
        1
    } else {
        powers_of_31((k - 1) as nat) + vstd::arithmetic::power::pow(31, k)
    }
}

proof fn lemma_powers_of_31_step(k: nat)
    ensures
        powers_of_31(k + 1) == 31 * powers_of_31(k) + 1,
    decreases k,
{
    reveal_with_fuel(vstd::arithmetic::power::pow, 2);
    if k > 0 {
        lemma_powers_of_31_step((k - 1) as nat);
        assert(vstd::arithmetic::power::pow(31, k + 1) == 31 * vstd::arithmetic::power::pow(31, k));
    }
}

/// The walk of `apply_permutation`: with `len` below 2^32, the index before step `k` is
/// `seed * (1 + 31 + ... + 31^k) mod len`; step `k` exchanges position `k` with position
/// `(index + (7 k) mod len) mod len` and leaves every other position alone; no step is
/// taken before the first and one step is taken for each position.
pub proof fn lemma_permutation_walk(d: Seq<u8>, seed: u32, k: nat)
    requires
        0 < d.len() <= u32::MAX,
        k <= d.len(),
    ensures
        permutation_state(d, seed, k).1 == (seed * powers_of_31(k)) % (d.len() as int),
        permutation_state(d, seed, 0).0 == d,
        permuted(d, seed) == permutation_state(d, seed, d.len()).0,
        permutation_state(d, seed, k).0.len() == d.len(),
        k < d.len() ==> ({
            let len = d.len() as int;
            let prev = permutation_state(d, seed, k).0;
            let next = permutation_state(d, seed, k + 1).0;
            let j = ((seed * powers_of_31(k)) % len + (7 * (k as int)) % len) % len;
            &&& next.len() == len
            &&& next[k as int] == prev[j]
            &&& next[j] == prev[k as int]
            &&& forall|m: int| 0 <= m < len && m != k && m != j ==> #[trigger] next[m] == prev[m]
        }),
    decreases k,
{
    let len = d.len() as int;
    lemma_permutation_state_shape(d, seed, k);
    if k == 0 {
        assert((d.len() as u32) as int == len);
    } else {
        lemma_permutation_walk(d, seed, (k - 1) as nat);
        let a = seed * powers_of_31((k - 1) as nat);
        lemma_powers_of_31_step((k - 1) as nat);
        vstd::arithmetic::div_mod::lemma_mul_mod_noop_left(a, 31, len);
        vstd::arithmetic::div_mod::lemma_add_mod_noop((a % len) * 31, seed as int, len);
        vstd::arithmetic::div_mod::lemma_add_mod_noop(a * 31, seed as int, len);
        assert(a * 31 + seed == seed * powers_of_31(k)) by (nonlinear_arith)
            requires
                a == seed * powers_of_31((k - 1) as nat),
                powers_of_31(k) == 31 * powers_of_31((k - 1) as nat) + 1,
        ;
    }
}

/// The key and the leftover cut from the final digest.
pub struct DerivedKey {
    pub key: Vec<u8>,
    pub leftover: Vec<u8>,
}

/// The key cut from the final digest: its first 32 bytes, permuted by the checksum of the
/// CRC digest.
pub open spec fn database_key(final_digest: Seq<u8>, crc: Seq<u8>) -> Seq<u8> {
    permuted(final_digest.take(DATABASE_KEY_SIZE as int), checksum(crc))
}

/// Cuts the final digest into the database key (its first 32 bytes, permuted by the
/// checksum of the CRC digest) and the leftover bytes after them.
pub fn derive_final_key(final_digest: &[u8], crc: &[u8]) -> (res: DerivedKey)
    requires
        final_digest@.len() >= DATABASE_KEY_SIZE,
        permutation_fits(DATABASE_KEY_SIZE as nat, checksum(crc@)),
    ensures
        res.key@ == database_key(final_digest@, crc@),
        res.leftover@ == final_digest@.skip(DATABASE_KEY_SIZE as int),
{
    let mut key = copy_range(final_digest, 0, DATABASE_KEY_SIZE);
    let leftover = copy_range(final_digest, DATABASE_KEY_SIZE, final_digest.len());
    let crc_val: u32 = crc_checksum(crc);
    apply_permutation(&mut key, crc_val);
    DerivedKey { key, leftover }
}

proof fn lemma_keep_alphanumeric_step(s: Seq<char>, i: int)
    requires
        0 <= i < s.len(),
    ensures
        keep_alphanumeric(s.take(i + 1)) == keep_alphanumeric(s.take(i)) + if is_ascii_alphanumeric_char(s[i]) {
            seq![s[i]]
        } else {
            Seq::<char>::empty()
        },
{
    assert(s.take(i + 1).drop_last() =~= s.take(i));
}

/// The database file name: `db_`, the first 16 ASCII letters and digits of the encoded
/// leftover digest, and `.sqlite`.
pub fn database_name(encoded: &str) -> (name: String)
    ensures
        name@ == database_file_name(encoded@),
{
    let v = chars_of(encoded);
    let mut clean = String::from_str("");
    let mut kept: usize = 0;
    let mut i: usize = 0;
    proof {
        reveal_strlit("");
    }
    while i < v.len()
        invariant
            v@ == encoded@,
            i <= v.len(),
            kept == clean@.len(),
            kept <= DATABASE_NAME_CHARS,
            clean@ == at_most(keep_alphanumeric(encoded@.take(i as int)), DATABASE_NAME_CHARS as nat),
        decreases v.len() - i,
    {
        proof {
            lemma_keep_alphanumeric_step(encoded@, i as int);
        }
        if kept < DATABASE_NAME_CHARS && is_ascii_alphanumeric(v[i]) {
            clean.append(encoded.substring_char(i, i + 1));
            kept = kept + 1;
            assert(clean@ =~= at_most(keep_alphanumeric(encoded@.take(i + 1)), DATABASE_NAME_CHARS as nat));
        } else {
            assert(clean@ =~= at_most(keep_alphanumeric(encoded@.take(i + 1)), DATABASE_NAME_CHARS as nat));
        }
        i = i + 1;
    }
    assert(encoded@.take(v.len() as int) =~= encoded@);
    let mut name = String::from_str("db_");
    name.append(clean.as_str());
    name.append(".sqlite");
    name
}

/// The combined digest is as long as the shorter of the first two digests, and XORing
/// each of its bytes with the bytes of those two digests at that position gives back the
/// CRC digest's byte there (zero beyond the CRC digest).
pub proof fn lemma_combined_digest_xor(sha3: Seq<u8>, keccak: Seq<u8>, crc: Seq<u8>)
    ensures
        combined_digest(sha3, keccak, crc).len() == if sha3.len() <= keccak.len() {
            sha3.len()
        } else {
            keccak.len()
        },
        forall|i: int|
            0 <= i < combined_digest(sha3, keccak, crc).len() ==> #[trigger] combined_digest(
                sha3,
                keccak,
                crc,
            )[i] ^ sha3[i] ^ keccak[i] == if i < crc.len() {
                crc[i]
            } else {
                0u8
            },
{
    assert forall|i: int|
        0 <= i < combined_digest(sha3, keccak, crc).len() implies #[trigger] combined_digest(
            sha3,
            keccak,
            crc,
        )[i] ^ sha3[i] ^ keccak[i] == if i < crc.len() {
            crc[i]
        } else {
            0u8
        } by {
        let a = sha3[i];
        let b = keccak[i];
        if i < crc.len() {
            let c = crc[i];
            assert(a ^ b ^ c ^ a ^ b == c) by (bit_vector);
        } else {
            assert(a ^ b ^ a ^ b == 0u8) by (bit_vector);
        }
    }
}

/// The checksum of nothing is zero, and appending a byte adds it modulo 2^32.
pub proof fn lemma_checksum_appends(s: Seq<u8>, b: u8)
    ensures
        checksum(Seq::<u8>::empty()) == 0,
        checksum(s.push(b)) as int == (checksum(s) as int + b as int) % 0x1_0000_0000,
{
    assert(s.push(b).drop_last() =~= s);
    vstd::arithmetic::div_mod::lemma_add_mod_noop(byte_sum(s) as int, b as int, 0x1_0000_0000);
    vstd::arithmetic::div_mod::lemma_small_mod(b as nat, 0x1_0000_0000);
    vstd::arithmetic::div_mod::lemma_mod_twice(byte_sum(s) as int, 0x1_0000_0000);
}

proof fn lemma_keep_alphanumeric_is_filter(s: Seq<char>)
    ensures
        keep_alphanumeric(s) == s.filter(|c: char| is_ascii_alphanumeric_char(c)),
    decreases s.len(),
{
    reveal_with_fuel(Seq::filter, 1);
    if s.len() > 0 {
        lemma_keep_alphanumeric_is_filter(s.drop_last());
        assert(keep_alphanumeric(s) =~= s.filter(|c: char| is_ascii_alphanumeric_char(c)));
    }
}

/// The database file name is `db_`, then the first sixteen (or all, if fewer) ASCII
/// letters and digits of the encoded leftover digest in their order, then `.sqlite`.
pub proof fn lemma_database_file_name(encoded: Seq<char>)
    ensures
        ({
            let kept = encoded.filter(|c: char| is_ascii_alphanumeric_char(c));
            database_file_name(encoded) == seq!['d', 'b', '_'] + (if kept.len() <= 16 {
                kept
            } else {
                kept.take(16)
            }) + seq!['.', 's', 'q', 'l', 'i', 't', 'e']
        }),
{
    lemma_keep_alphanumeric_is_filter(encoded);
    reveal_strlit("db_");
    reveal_strlit(".sqlite");
    assert("db_"@ =~= seq!['d', 'b', '_']);
    assert(".sqlite"@ =~= seq!['.', 's', 'q', 'l', 'i', 't', 'e']);
}

/// The database key is 32 bytes long and holds exactly the first 32 bytes of the final
/// digest, in a permuted order.
pub proof fn lemma_database_key_bytes(final_digest: Seq<u8>, crc: Seq<u8>)
    requires
        final_digest.len() >= 32,
    ensures
        database_key(final_digest, crc).len() == 32,
        database_key(final_digest, crc).to_multiset() == final_digest.take(32).to_multiset(),
{
    lemma_permutation_keeps_bytes(final_digest.take(32), checksum(crc));
}

} // verus!
