//! Lease token generation and expiry arithmetic.

use vstd::prelude::*;

verus! {

/// Default lease TTL in seconds (30 minutes).
pub const DEFAULT_LEASE_TTL_SECS: i64 = 30 * 60;

/// The hexadecimal digit character for a value below 16.
pub open spec fn spec_hex_char(d: nat) -> char {
    if d < 10 {
        ((48 + d) as u8) as char
    } else {
        ((87 + d) as u8) as char
    }
}

/// True of characters that can appear in a lease id: `0-9` and `a-f`.
pub open spec fn is_hex_char(c: char) -> bool {
    exists|d: nat| d < 16 && c == spec_hex_char(d)
}

/// The lowercase hex encoding of a byte sequence, two digits per byte,
/// high nibble first.
pub open spec fn spec_hex_of(bytes: Seq<u8>) -> Seq<char>
    decreases bytes.len(),
{
    if bytes.len() == 0 {
        Seq::empty()
    } else {
        spec_hex_of(bytes.drop_last()).push(spec_hex_char((bytes.last() / 16) as nat)).push(
            spec_hex_char((bytes.last() % 16) as nat),
        )
    }
}

/// The one-character string for a hex digit value.
fn hex_digit_str(d: u8) -> (r: &'static str)
    requires
        d < 16,
    ensures
        r@.len() == 1,
        r@[0] == spec_hex_char(d as nat),
{
    proof {
        reveal_strlit("0");
        reveal_strlit("1");
        reveal_strlit("2");
        reveal_strlit("3");
        reveal_strlit("4");
        reveal_strlit("5");
        reveal_strlit("6");
        reveal_strlit("7");
        reveal_strlit("8");
        reveal_strlit("9");
        reveal_strlit("a");
        reveal_strlit("b");
        reveal_strlit("c");
        reveal_strlit("d");
        reveal_strlit("e");
        reveal_strlit("f");
    }
    match d {
        0 => "0",
        1 => "1",
        2 => "2",
        3 => "3",
        4 => "4",
        5 => "5",
        6 => "6",
        7 => "7",
        8 => "8",
        9 => "9",
        10 => "a",
        11 => "b",
        12 => "c",
        13 => "d",
        14 => "e",
        _ => "f",
    }
}

/// Encodes bytes as lowercase hex, two digits per byte.
pub fn hex_encode(bytes: &Vec<u8>) -> (r: String)
    ensures
        r@ == spec_hex_of(bytes@),
        r@.len() == 2 * bytes@.len(),
{
    let mut out = String::new();
    let mut i: usize = 0;
    while i < bytes.len()
        invariant
            i <= bytes@.len(),
            out@ == spec_hex_of(bytes@.take(i as int)),
            out@.len() == 2 * i,
        decreases bytes@.len() - i,
    {
        let b = bytes[i];
        out.append(hex_digit_str(b / 16));
        out.append(hex_digit_str(b % 16));
        i = i + 1;
        proof {
            assert(bytes@.take(i as int).drop_last() =~= bytes@.take(i - 1));
            assert(bytes@.take(i as int).last() == bytes@[i - 1]);
        }
    }
    proof {
        assert(bytes@.take(bytes@.len() as int) =~= bytes@);
    }
    out
}

/// Relies on `rand::rngs::OsRng` through `rand::TryRngCore::try_fill_bytes`:
/// fills the buffer with operating-system randomness.  Nothing can be said
/// of the bytes themselves; aborts the process if the OS RNG is unavailable.
#[verifier::external_body]
fn os_random_bytes() -> (r: Vec<u8>)
    ensures
        r@.len() == 16,
{
    let mut bytes = [0_u8; 16];
    let mut rng = rand::rngs::OsRng;
    rand::TryRngCore::try_fill_bytes(&mut rng, &mut bytes).expect("OS RNG unavailable");
    bytes.to_vec()
}

/// Generates a random lease id: 32 lowercase hex characters drawn from
/// 16 bytes of OS randomness.
pub fn generate_lease_id() -> (r: String)
    ensures
        r@.len() == 32,
        forall|i: int| 0 <= i < r@.len() ==> is_hex_char(#[trigger] r@[i]),
{
    let bytes = os_random_bytes();
    let r = hex_encode(&bytes);
    proof {
        lemma_hex_of_chars(bytes@);
    }
    r
}

/// Every character of a hex encoding is a hex digit character.
proof fn lemma_hex_of_chars(bytes: Seq<u8>)
    ensures
        spec_hex_of(bytes).len() == 2 * bytes.len(),
        forall|i: int|
            0 <= i < spec_hex_of(bytes).len() ==> is_hex_char(#[trigger] spec_hex_of(bytes)[i]),
    decreases bytes.len(),
{
    if bytes.len() > 0 {
        lemma_hex_of_chars(bytes.drop_last());
        let hi = (bytes.last() / 16) as nat;
        let lo = (bytes.last() % 16) as nat;
        assert(is_hex_char(spec_hex_char(hi)));
        assert(is_hex_char(spec_hex_char(lo)));
    }
}

/// The absolute expiry instant of a lease granted at `now` with the given
/// TTL in seconds.
pub fn lease_expires_at(now: i64, ttl_seconds: i64) -> (r: i64)
    requires
        i64::MIN <= now + ttl_seconds <= i64::MAX,
    ensures
        r == now + ttl_seconds,
{
    now + ttl_seconds
}

} // verus!
