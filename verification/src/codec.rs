//! Numbers in their stored form.

use vstd::prelude::*;

verus! {

/// A number in groups of seven bits, the lowest first; every group but the last has the
/// top bit set.
pub open spec fn varint(n: nat) -> Seq<u8>
    decreases n,
{
    if n < 128 {
        seq![n as u8]
    } else {
        seq![(n % 128 + 128) as u8] + varint(n / 128)
    }
}

/// The text of the error for bytes that end before the number does.
pub open spec fn end_message() -> Seq<char> {
    "Hit the end of buffer, expected more data"@
}

/// The text of the error for a number that takes more bits than there is room for.
pub open spec fn bad_varint_message() -> Seq<char> {
    "Found a varint that didn't terminate. Is the usize too big for this platform?"@
}

/// The number at the front of some bytes and what follows it. The number takes at most
/// `left` groups, and the last of so many is at most `top`.
pub open spec fn take_varint(bytes: Seq<u8>, left: nat, top: u8) -> Result<
    (nat, Seq<u8>),
    Seq<char>,
>
    decreases left,
{
    if left == 0 {
        Err(bad_varint_message())
    } else if bytes.len() == 0 {
        Err(end_message())
    } else if bytes[0] >= 128 {
        match take_varint(bytes.skip(1), (left - 1) as nat, top) {
            Ok((number, rest)) => Ok(((bytes[0] - 128 + 128 * number) as nat, rest)),
            Err(text) => Err(text),
        }
    } else if left == 1 && bytes[0] > top {
        Err(bad_varint_message())
    } else {
        Ok((bytes[0] as nat, bytes.skip(1)))
    }
}

/// What stands as a `u64` at the front of some bytes: the number and what follows it, or
/// the text of the error. Nine groups hold 63 bits, and one bit is left for the tenth.
pub open spec fn u64_reading(bytes: Seq<u8>) -> Result<(u64, Seq<u8>), Seq<char>> {
    match take_varint(bytes, 10, 1) {
        Ok((number, rest)) => Ok((number as u64, rest)),
        Err(text) => Err(text),
    }
}

/// What stands as a `u32` at the front of some bytes: the number and what follows it, or
/// the text of the error. Four groups hold 28 bits, and four bits are left for the fifth.
pub open spec fn u32_reading(bytes: Seq<u8>) -> Result<(u32, Seq<u8>), Seq<char>> {
    match take_varint(bytes, 5, 15) {
        Ok((number, rest)) => Ok((number as u32, rest)),
        Err(text) => Err(text),
    }
}

/// How many numbers there are in so many groups.
spec fn varint_limit(left: nat, top: u8) -> nat
    decreases left,
{
    if left <= 1 {
        top as nat + 1
    } else {
        128 * varint_limit((left - 1) as nat, top)
    }
}

proof fn lemma_varint_reads_back(number: nat, left: nat, top: u8, rest: Seq<u8>)
    requires
        left > 0,
        top < 128,
        number < varint_limit(left, top),
    ensures
        take_varint(varint(number) + rest, left, top) == Ok::<(nat, Seq<u8>), Seq<char>>(
            (number, rest),
        ),
    decreases left,
{
    let bytes = varint(number) + rest;
    if number < 128 {
        assert(bytes[0] == number);
        assert(bytes.skip(1) =~= rest);
    } else {
        assert(bytes[0] == number % 128 + 128);
        assert(bytes.skip(1) =~= varint(number / 128) + rest);
        lemma_varint_reads_back(number / 128, (left - 1) as nat, top, rest);
    }
}

/// A `u64` reads back from its stored form, whatever follows.
pub proof fn law_u64_reads_back(number: u64, rest: Seq<u8>)
    ensures
        u64_reading(varint(number as nat) + rest) == Ok::<(u64, Seq<u8>), Seq<char>>(
            (number, rest),
        ),
{
    reveal_with_fuel(varint_limit, 10);
    lemma_varint_reads_back(number as nat, 10, 1, rest);
}

/// A `u32` reads back from its stored form, whatever follows.
pub proof fn law_u32_reads_back(number: u32, rest: Seq<u8>)
    ensures
        u32_reading(varint(number as nat) + rest) == Ok::<(u32, Seq<u8>), Seq<char>>(
            (number, rest),
        ),
{
    reveal_with_fuel(varint_limit, 5);
    lemma_varint_reads_back(number as nat, 5, 15, rest);
}

/// A reading with the bytes and the text taken by what they hold.
pub open spec fn reading_of<N>(read: Result<(N, Vec<u8>), String>) -> Result<
    (N, Seq<u8>),
    Seq<char>,
> {
    match read {
        Ok((number, rest)) => Ok((number, rest@)),
        Err(text) => Err(text@),
    }
}

/// Wraps `postcard::to_stdvec` on a `u64`: it writes the number as a varint. Writing
/// into a growing vector never fails.
#[verifier::external_body]
pub(crate) fn encode_u64(number: u64) -> (bytes: Vec<u8>)
    ensures
        bytes@ == varint(number as nat),
{
    postcard::to_stdvec(&number).unwrap_or_default()
}

/// Wraps `postcard::to_stdvec` on a `u32`: it writes the number as a varint. Writing
/// into a growing vector never fails.
#[verifier::external_body]
pub(crate) fn encode_u32(number: u32) -> (bytes: Vec<u8>)
    ensures
        bytes@ == varint(number as nat),
{
    postcard::to_stdvec(&number).unwrap_or_default()
}

/// Wraps `postcard::take_from_bytes` on a `u64`: it reads a varint of as many groups as
/// the number can take. What follows the number is copied, and the error is given as
/// its text.
#[verifier::external_body]
pub(crate) fn take_u64(bytes: &[u8]) -> (read: Result<(u64, Vec<u8>), String>)
    ensures
        reading_of(read) == u64_reading(bytes@),
{
    postcard::take_from_bytes::<u64>(bytes)
        .map(|(number, rest)| (number, rest.to_vec()))
        .map_err(|error| error.to_string())
}

/// Wraps `postcard::take_from_bytes` on a `u32`: it reads a varint of as many groups as
/// the number can take. What follows the number is copied, and the error is given as
/// its text.
#[verifier::external_body]
pub(crate) fn take_u32(bytes: &[u8]) -> (read: Result<(u32, Vec<u8>), String>)
    ensures
        reading_of(read) == u32_reading(bytes@),
{
    postcard::take_from_bytes::<u32>(bytes)
        .map(|(number, rest)| (number, rest.to_vec()))
        .map_err(|error| error.to_string())
}

} // verus!
