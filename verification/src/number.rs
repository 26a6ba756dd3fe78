//! The header codec: a `Number` is an unsigned 32-bit integer stored in four
//! bytes, least significant byte first. Every length, count, offset and union
//! discriminant of the wire format is a `Number`.

use vstd::prelude::*;

verus! {

/// The integer type of all lengths, counts, offsets and discriminants.
pub type Number = u32;

/// Bytes taken by one encoded `Number`.
pub const NUMBER_SIZE: usize = 4;

/// Bytes taken by the leading `Number` of every headed encoding.
pub const HEADER_SIZE: usize = NUMBER_SIZE;

/// The number whose little-endian bytes are `b0`, `b1`, `b2`, `b3`.
#[verifier::opaque]
pub open spec fn number_of(b0: u8, b1: u8, b2: u8, b3: u8) -> nat {
    (b0 as nat) + 0x100 * (b1 as nat) + 0x1_0000 * (b2 as nat) + 0x100_0000 * (b3 as nat)
}

/// Byte `i` of the little-endian encoding of `n`.
#[verifier::opaque]
pub open spec fn number_byte(n: nat, i: int) -> u8 {
    if i == 0 {
        (n % 0x100) as u8
    } else if i == 1 {
        ((n / 0x100) % 0x100) as u8
    } else if i == 2 {
        ((n / 0x1_0000) % 0x100) as u8
    } else {
        ((n / 0x100_0000) % 0x100) as u8
    }
}

/// The value of the little-endian `Number` that starts at index `at` of `s`.
pub open spec fn number_at(s: Seq<u8>, at: int) -> nat
    recommends
        0 <= at,
        at + 4 <= s.len(),
{
    number_of(s[at], s[at + 1], s[at + 2], s[at + 3])
}

/// The four bytes that encode `n`.
pub open spec fn number_bytes(n: nat) -> Seq<u8>
    recommends
        n <= u32::MAX,
{
    seq![number_byte(n, 0), number_byte(n, 1), number_byte(n, 2), number_byte(n, 3)]
}

/// The digits of a number written to the base 256 are found by dividing.
proof fn lemma_digits(b0: nat, b1: nat, b2: nat, b3: nat)
    requires
        b0 < 0x100,
        b1 < 0x100,
        b2 < 0x100,
        b3 < 0x100,
    ensures
        ({
            let n = b0 + 0x100 * b1 + 0x1_0000 * b2 + 0x100_0000 * b3;
            &&& n <= u32::MAX
            &&& n % 0x100 == b0
            &&& (n / 0x100) % 0x100 == b1
            &&& (n / 0x1_0000) % 0x100 == b2
            &&& (n / 0x100_0000) % 0x100 == b3
        }),
{
    let n = b0 + 0x100 * b1 + 0x1_0000 * b2 + 0x100_0000 * b3;
    let q1 = b1 + 0x100 * b2 + 0x1_0000 * b3;
    let q2 = b2 + 0x100 * b3;
    assert(n == 0x100 * q1 + b0);
    assert(n / 0x100 == q1);
    assert(q1 == 0x100 * q2 + b1);
    assert(n / 0x1_0000 == q2);
    assert(q2 == 0x100 * b3 + b2);
    assert(n / 0x100_0000 == b3);
}

/// A `Number` is at most `u32::MAX`, and its bytes encode it.
pub proof fn lemma_number_of_bytes(b0: u8, b1: u8, b2: u8, b3: u8)
    ensures
        number_of(b0, b1, b2, b3) <= u32::MAX,
        number_bytes(number_of(b0, b1, b2, b3)) == seq![b0, b1, b2, b3],
{
    reveal(number_of);
    reveal(number_byte);
    lemma_digits(b0 as nat, b1 as nat, b2 as nat, b3 as nat);
    assert(number_bytes(number_of(b0, b1, b2, b3)) =~= seq![b0, b1, b2, b3]);
}

/// The bytes of a `Number` encode that `Number`.
pub proof fn lemma_bytes_of_number(n: nat)
    requires
        n <= u32::MAX,
    ensures
        number_of(number_byte(n, 0), number_byte(n, 1), number_byte(n, 2), number_byte(n, 3))
            == n,
{
    reveal(number_of);
    reveal(number_byte);
}

/// Decoding the encoding of a `Number` gives the `Number` back, wherever the
/// four bytes stand in a longer sequence.
pub proof fn lemma_number_round_trip(n: nat, before: Seq<u8>, after: Seq<u8>)
    requires
        n <= u32::MAX,
    ensures
        number_bytes(n).len() == 4,
        number_at(before + number_bytes(n) + after, before.len() as int) == n,
{
    let s = before + number_bytes(n) + after;
    let at = before.len() as int;
    assert(s[at] == number_bytes(n)[0]);
    assert(s[at + 1] == number_bytes(n)[1]);
    assert(s[at + 2] == number_bytes(n)[2]);
    assert(s[at + 3] == number_bytes(n)[3]);
    lemma_bytes_of_number(n);
}

/// Encoding the value read from four bytes gives those four bytes back.
pub proof fn lemma_number_bytes_of_number_at(s: Seq<u8>, at: int)
    requires
        0 <= at,
        at + 4 <= s.len(),
    ensures
        number_at(s, at) <= u32::MAX,
        number_bytes(number_at(s, at)) == s.subrange(at, at + 4),
{
    lemma_number_of_bytes(s[at], s[at + 1], s[at + 2], s[at + 3]);
    assert(seq![s[at], s[at + 1], s[at + 2], s[at + 3]] =~= s.subrange(at, at + 4));
}

/// Where four bytes of a sequence are the encoding of `n`, reading a
/// `Number` there gives `n`.
pub proof fn lemma_number_at_of_bytes(s: Seq<u8>, at: int, n: nat)
    requires
        0 <= at,
        at + 4 <= s.len(),
        n <= u32::MAX,
        s.subrange(at, at + 4) == number_bytes(n),
    ensures
        number_at(s, at) == n,
{
    lemma_bytes_of_number(n);
    let four = s.subrange(at, at + 4);
    assert(four[0] == s[at] && four[1] == s[at + 1] && four[2] == s[at + 2] && four[3] == s[at
        + 3]);
}

/// The encoding of the size of a header is 4, 0, 0, 0, and that of zero is
/// four zero bytes.
pub proof fn lemma_bytes_of_four()
    ensures
        number_bytes(4) == seq![4u8, 0u8, 0u8, 0u8],
        number_bytes(0) == seq![0u8, 0u8, 0u8, 0u8],
{
    reveal(number_byte);
    assert(number_bytes(4) =~= seq![4u8, 0u8, 0u8, 0u8]);
    assert(number_bytes(0) =~= seq![0u8, 0u8, 0u8, 0u8]);
}

/// Reads the `Number` at the start of `slice`.
pub fn unpack_number(slice: &[u8]) -> (n: Number)
    requires
        slice@.len() >= NUMBER_SIZE,
    ensures
        n == number_at(slice@, 0),
{
    let b0: u32 = slice[0] as u32;
    let b1: u32 = slice[1] as u32;
    let b2: u32 = slice[2] as u32;
    let b3: u32 = slice[3] as u32;
    proof {
        reveal(number_of);
    }
    b0 + 0x100 * b1 + 0x1_0000 * b2 + 0x100_0000 * b3
}

/// Encodes `n` as four little-endian bytes.
pub fn pack_number(n: Number) -> (bytes: Vec<u8>)
    ensures
        bytes@ == number_bytes(n as nat),
{
    let mut bytes: Vec<u8> = Vec::with_capacity(NUMBER_SIZE);
    bytes.push((n % 0x100) as u8);
    bytes.push(((n / 0x100) % 0x100) as u8);
    bytes.push(((n / 0x1_0000) % 0x100) as u8);
    bytes.push(((n / 0x100_0000) % 0x100) as u8);
    proof {
        reveal(number_byte);
        assert(bytes@ =~= number_bytes(n as nat));
    }
    bytes
}

} // verus!
