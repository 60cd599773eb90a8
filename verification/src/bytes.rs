//! Byte strings: comparison, search, fixed-width integers and decimal text.

use vstd::prelude::*;
use vstd::slice::*;
use vstd::string::*;

verus! {

broadcast use {group_string_axioms, group_slice_axioms};

/// The UTF-8 bytes of a text.
pub open spec fn text(s: &str) -> Seq<u8> {
    s.spec_bytes()
}

/// Whether `needle` stands in `hay` at position `at`.
pub open spec fn occurs_at(hay: Seq<u8>, needle: Seq<u8>, at: int) -> bool {
    0 <= at && at + needle.len() <= hay.len() && hay.subrange(at, at + needle.len()) =~= needle
}

/// Whether `bytes` begins with `prefix`.
pub open spec fn has_prefix(bytes: Seq<u8>, prefix: Seq<u8>) -> bool {
    occurs_at(bytes, prefix, 0)
}

/// Whether `bytes` ends with `suffix`.
pub open spec fn has_suffix(bytes: Seq<u8>, suffix: Seq<u8>) -> bool {
    occurs_at(bytes, suffix, bytes.len() - suffix.len())
}

/// The first position at which `needle` stands in `hay`.
#[verifier::opaque]
pub open spec fn first_occurrence(hay: Seq<u8>, needle: Seq<u8>) -> Option<int> {
    if exists|at: int| occurs_at(hay, needle, at) {
        Some(
            choose|at: int|
                occurs_at(hay, needle, at) && forall|k: int| 0 <= k < at ==> !occurs_at(hay, needle, k),
        )
    } else {
        None
    }
}

/// A first position is unique.
pub proof fn lemma_first_occurrence(hay: Seq<u8>, needle: Seq<u8>, at: int)
    requires
        occurs_at(hay, needle, at),
        forall|k: int| 0 <= k < at ==> !occurs_at(hay, needle, k),
    ensures
        first_occurrence(hay, needle) == Some(at),
{
    reveal(first_occurrence);
    let found = choose|p: int|
        occurs_at(hay, needle, p) && forall|k: int| 0 <= k < p ==> !occurs_at(hay, needle, k);
    assert(occurs_at(hay, needle, found) && forall|k: int|
        0 <= k < found ==> !occurs_at(hay, needle, k));
    assert(!(found < at) && !(at < found));
}

/// Compares two byte strings.
pub fn bytes_equal(left: &[u8], right: &[u8]) -> (equal: bool)
    ensures
        equal == (left@ == right@),
{
    if left.len() != right.len() {
        return false;
    }
    let mut i: usize = 0;
    while i < left.len()
        invariant
            i <= left.len(),
            left.len() == right.len(),
            forall|k: int| 0 <= k < i ==> left@[k] == right@[k],
        decreases left.len() - i,
    {
        if left[i] != right[i] {
            return false;
        }
        i = i + 1;
    }
    assert(left@ =~= right@);
    true
}

/// Compares two texts.
pub fn str_equal(left: &str, right: &str) -> (equal: bool)
    ensures
        equal == (left@ == right@),
{
    proof {
        vstd::utf8::encode_utf8_decode_utf8(left@);
        vstd::utf8::encode_utf8_decode_utf8(right@);
    }
    bytes_equal(left.as_bytes(), right.as_bytes())
}

/// Whether `bytes` holds `needle` at position `at`.
pub fn holds_at(bytes: &[u8], needle: &[u8], at: usize) -> (held: bool)
    requires
        at <= bytes.len(),
    ensures
        held == occurs_at(bytes@, needle@, at as int),
{
    if needle.len() > bytes.len() - at {
        return false;
    }
    bytes_equal(slice_subrange(bytes, at, at + needle.len()), needle)
}

/// Whether `bytes` begins with `prefix`.
pub fn starts_with(bytes: &[u8], prefix: &[u8]) -> (held: bool)
    ensures
        held == has_prefix(bytes@, prefix@),
{
    holds_at(bytes, prefix, 0)
}

/// Whether `bytes` ends with `suffix`.
pub fn ends_with(bytes: &[u8], suffix: &[u8]) -> (held: bool)
    ensures
        held == has_suffix(bytes@, suffix@),
{
    if suffix.len() > bytes.len() {
        return false;
    }
    holds_at(bytes, suffix, bytes.len() - suffix.len())
}

/// The first position at which `needle` stands in `haystack`.
pub fn find_subslice(haystack: &[u8], needle: &[u8]) -> (found: Option<usize>)
    requires
        needle.len() > 0,
    ensures
        found matches Some(at) ==> first_occurrence(haystack@, needle@) == Some(at as int)
            && occurs_at(haystack@, needle@, at as int),
        found is None ==> first_occurrence(haystack@, needle@) is None,
{
    let mut at: usize = 0;
    while at < haystack.len()
        invariant
            needle.len() > 0,
            at <= haystack.len(),
            forall|k: int| 0 <= k < at ==> !occurs_at(haystack@, needle@, k),
        decreases haystack.len() - at,
    {
        if holds_at(haystack, needle, at) {
            proof {
                lemma_first_occurrence(haystack@, needle@, at as int);
            }
            return Some(at);
        }
        at = at + 1;
    }
    proof {
        reveal(first_occurrence);
    }
    None
}

/// Appends a byte slice to a vector.
pub fn append_bytes(target: &mut Vec<u8>, bytes: &[u8])
    ensures
        final(target)@ == old(target)@ + bytes@,
{
    target.extend_from_slice(bytes);
    assert(target@ =~= old(target)@ + bytes@);
}

/// Copies a part of a byte slice.
pub fn copy_range(bytes: &[u8], from: usize, to: usize) -> (copy: Vec<u8>)
    requires
        from <= to <= bytes.len(),
    ensures
        copy@ == bytes@.subrange(from as int, to as int),
{
    slice_to_vec(slice_subrange(bytes, from, to))
}

/// Copies a byte slice.
pub fn copy_bytes(bytes: &[u8]) -> (copy: Vec<u8>)
    ensures
        copy@ == bytes@,
{
    slice_to_vec(bytes)
}

/// A run of zero bytes.
pub fn zero_bytes(len: usize) -> (zeros: Vec<u8>)
    ensures
        zeros@ == Seq::new(len as nat, |i: int| 0u8),
{
    let zeros: Vec<u8> = vec![0u8; len];
    assert(zeros@ =~= Seq::new(len as nat, |i: int| 0u8));
    zeros
}

/// Whether `left` sorts before `right` because of position `k`.
pub open spec fn less_at(left: Seq<u8>, right: Seq<u8>, k: int) -> bool {
    &&& 0 <= k <= left.len()
    &&& k < right.len()
    &&& forall|j: int| 0 <= j < k ==> left[j] == right[j]
    &&& k == left.len() || left[k] < right[k]
}

/// Lexicographic order of byte strings.
pub open spec fn lex_less(left: Seq<u8>, right: Seq<u8>) -> bool {
    exists|k: int| less_at(left, right, k)
}

/// Lexicographic order is irreflexive and asymmetric.
pub proof fn lemma_lex_less_asymmetric(left: Seq<u8>, right: Seq<u8>)
    requires
        lex_less(left, right),
    ensures
        left != right,
        !lex_less(right, left),
{
    let k = choose|k: int| less_at(left, right, k);
    if left == right {
        assert(left[k] == right[k]);
    }
    if lex_less(right, left) {
        let m = choose|m: int| less_at(right, left, m);
        if k < m {
            assert(right[k] == left[k]);
        } else if m < k {
            assert(right[m] == left[m]);
        }
    }
}

/// Lexicographic order is transitive.
pub proof fn lemma_lex_less_transitive(a: Seq<u8>, b: Seq<u8>, c: Seq<u8>)
    requires
        lex_less(a, b),
        lex_less(b, c),
    ensures
        lex_less(a, c),
{
    let k = choose|k: int| less_at(a, b, k);
    let m = choose|m: int| less_at(b, c, m);
    assert(less_at(a, c, if k < m { k } else { m }));
}

/// Of two different byte strings, one sorts before the other.
pub proof fn lemma_lex_less_total(left: Seq<u8>, right: Seq<u8>)
    ensures
        left == right || lex_less(left, right) || lex_less(right, left),
{
    lemma_lex_less_total_from(left, right, 0);
}

proof fn lemma_lex_less_total_from(left: Seq<u8>, right: Seq<u8>, k: int)
    requires
        0 <= k <= left.len(),
        k <= right.len(),
        forall|j: int| 0 <= j < k ==> left[j] == right[j],
    ensures
        left == right || lex_less(left, right) || lex_less(right, left),
    decreases left.len() - k,
{
    if k == left.len() && k == right.len() {
        assert(left =~= right);
    } else if k == left.len() {
        assert(less_at(left, right, k));
    } else if k == right.len() {
        assert(less_at(right, left, k));
    } else if left[k] < right[k] {
        assert(less_at(left, right, k));
    } else if right[k] < left[k] {
        assert(less_at(right, left, k));
    } else {
        lemma_lex_less_total_from(left, right, k + 1);
    }
}

/// Compares two byte strings in lexicographic order.
pub fn bytes_less(left: &[u8], right: &[u8]) -> (less: bool)
    ensures
        less == lex_less(left@, right@),
        !less && left@ != right@ ==> lex_less(right@, left@),
{
    let mut k: usize = 0;
    while k < left.len() && k < right.len()
        invariant
            k <= left.len(),
            k <= right.len(),
            forall|j: int| 0 <= j < k ==> left@[j] == right@[j],
        decreases left.len() - k,
    {
        if left[k] != right[k] {
            proof {
                if left@[k as int] < right@[k as int] {
                    assert(less_at(left@, right@, k as int));
                } else {
                    assert(less_at(right@, left@, k as int));
                    lemma_lex_less_asymmetric(right@, left@);
                }
            }
            return left[k] < right[k];
        }
        k = k + 1;
    }
    proof {
        if k < right@.len() {
            assert(less_at(left@, right@, k as int));
        } else {
            assert forall|m: int| !less_at(left@, right@, m) by {
                if less_at(left@, right@, m) {
                    assert(left@[m] == right@[m]);
                }
            }
            if left@.len() == right@.len() {
                assert(left@ =~= right@);
            } else {
                assert(less_at(right@, left@, k as int));
            }
        }
    }
    k < right.len()
}

/// The value that big-endian bytes stand for.
pub open spec fn be_value(bytes: Seq<u8>) -> nat
    decreases bytes.len(),
{
    if bytes.len() == 0 {
        0
    } else {
        be_value(bytes.drop_last()) * 256 + bytes.last() as nat
    }
}

/// The low `width` bytes of a number, most significant first.
pub open spec fn be_bytes(n: nat, width: nat) -> Seq<u8>
    decreases width,
{
    if width == 0 {
        Seq::empty()
    } else {
        be_bytes(n / 256, (width - 1) as nat).push((n % 256) as u8)
    }
}

/// The eight big-endian bytes of a number.
pub open spec fn u64_be(n: u64) -> Seq<u8> {
    be_bytes(n as nat, 8)
}

spec fn pow256(width: nat) -> nat
    decreases width,
{
    if width == 0 {
        1
    } else {
        256 * pow256((width - 1) as nat)
    }
}

proof fn lemma_be_round_trip(n: nat, width: nat)
    requires
        n < pow256(width),
    ensures
        be_bytes(n, width).len() == width,
        be_value(be_bytes(n, width)) == n,
    decreases width,
{
    if width > 0 {
        lemma_be_round_trip(n / 256, (width - 1) as nat);
        assert(be_bytes(n, width).drop_last() =~= be_bytes(n / 256, (width - 1) as nat));
    }
}

proof fn lemma_be_value_bound(bytes: Seq<u8>)
    ensures
        be_value(bytes) < pow256(bytes.len()),
        be_bytes(be_value(bytes), bytes.len()) == bytes,
    decreases bytes.len(),
{
    if bytes.len() > 0 {
        lemma_be_value_bound(bytes.drop_last());
        assert(be_value(bytes) / 256 == be_value(bytes.drop_last()));
        assert(be_bytes(be_value(bytes), bytes.len()) =~= bytes);
    }
}

proof fn lemma_pow256_8()
    ensures
        pow256(8) == u64::MAX + 1,
{
    reveal_with_fuel(pow256, 9);
}

/// Eight bytes stand for a `u64`.
pub proof fn lemma_be_value_of_eight(bytes: Seq<u8>)
    requires
        bytes.len() == 8,
    ensures
        be_value(bytes) <= u64::MAX,
{
    lemma_pow256_8();
    lemma_be_value_bound(bytes);
}

/// Eight big-endian bytes give back the number they were made of.
pub proof fn lemma_u64_be_round_trip(n: u64)
    ensures
        u64_be(n).len() == 8,
        be_value(u64_be(n)) == n,
{
    lemma_pow256_8();
    lemma_be_round_trip(n as nat, 8);
}

/// Of byte strings of one length, the one that sorts first stands for the smaller
/// number.
pub proof fn lemma_be_order(left: Seq<u8>, right: Seq<u8>)
    requires
        left.len() == right.len(),
    ensures
        lex_less(left, right) <==> be_value(left) < be_value(right),
{
    if lex_less(left, right) {
        lemma_be_smaller(left, right);
    } else {
        lemma_lex_less_total(left, right);
        if left != right {
            lemma_be_smaller(right, left);
        }
    }
}

proof fn lemma_be_smaller(left: Seq<u8>, right: Seq<u8>)
    requires
        left.len() == right.len(),
        lex_less(left, right),
    ensures
        be_value(left) < be_value(right),
    decreases left.len(),
{
    let k = choose|k: int| less_at(left, right, k);
    let last = left.len() - 1;
    if k == last {
        assert(left.drop_last() =~= right.drop_last());
    } else {
        assert(less_at(left.drop_last(), right.drop_last(), k));
        lemma_be_smaller(left.drop_last(), right.drop_last());
    }
}

fn push_be(target: &mut Vec<u8>, n: u64, width: u8)
    ensures
        final(target)@ == old(target)@ + be_bytes(n as nat, width as nat),
    decreases width,
{
    if width > 0 {
        push_be(target, n / 256, width - 1);
        target.push((n % 256) as u8);
    }
    assert(target@ =~= old(target)@ + be_bytes(n as nat, width as nat));
}

/// The eight big-endian bytes of a number.
pub fn u64_to_be_bytes(n: u64) -> (bytes: Vec<u8>)
    ensures
        bytes@ == u64_be(n),
        bytes.len() == 8,
{
    let mut bytes: Vec<u8> = Vec::new();
    push_be(&mut bytes, n, 8);
    proof {
        lemma_u64_be_round_trip(n);
        assert(bytes@ =~= u64_be(n));
    }
    bytes
}

/// Reads eight big-endian bytes; any other length is refused.
pub fn read_u64_be(bytes: &[u8]) -> (value: Option<u64>)
    ensures
        value is Some <==> bytes.len() == 8,
        value matches Some(n) ==> n == be_value(bytes@) && u64_be(n) == bytes@,
{
    if bytes.len() != 8 {
        return None;
    }
    let mut value: u64 = 0;
    let mut i: usize = 0;
    proof {
        reveal_with_fuel(pow256, 9);
    }
    while i < 8
        invariant
            i <= 8,
            bytes.len() == 8,
            value == be_value(bytes@.take(i as int)),
            pow256(8) == u64::MAX + 1,
        decreases 8 - i,
    {
        proof {
            let longer = bytes@.take(i + 1);
            assert(longer.drop_last() =~= bytes@.take(i as int));
            lemma_be_value_bound(longer);
            lemma_pow256_monotone((i + 1) as nat, 8);
        }
        value = value * 256 + bytes[i] as u64;
        i = i + 1;
    }
    proof {
        assert(bytes@.take(8) =~= bytes@);
        lemma_be_value_bound(bytes@);
    }
    Some(value)
}

proof fn lemma_pow256_monotone(low: nat, high: nat)
    requires
        low <= high,
    ensures
        pow256(low) <= pow256(high),
    decreases high,
{
    if low < high {
        lemma_pow256_monotone(low, (high - 1) as nat);
    }
}

/// Whether every byte is a decimal digit.
pub open spec fn all_digits(bytes: Seq<u8>) -> bool {
    forall|i: int| 0 <= i < bytes.len() ==> 48 <= #[trigger] bytes[i] <= 57
}

/// The number that decimal digits stand for.
pub open spec fn digits_value(bytes: Seq<u8>) -> nat
    decreases bytes.len(),
{
    if bytes.len() == 0 {
        0
    } else {
        (digits_value(bytes.drop_last()) * 10 + (bytes.last() - 48)) as nat
    }
}

/// The low `width` decimal digits of a number, padded with zeros.
pub open spec fn decimal(n: nat, width: nat) -> Seq<u8>
    decreases width,
{
    if width == 0 {
        Seq::empty()
    } else {
        decimal(n / 10, (width - 1) as nat).push((48 + n % 10) as u8)
    }
}

/// A number in twenty decimal digits, enough for every `u64`.
pub open spec fn decimal20(n: u64) -> Seq<u8> {
    decimal(n as nat, 20)
}

/// What a text of decimal digits, with an optional leading `+`, stands for.
pub open spec fn parsed_u64(bytes: Seq<u8>) -> Option<u64> {
    let digits = if bytes.len() > 0 && bytes[0] == 43 {
        bytes.skip(1)
    } else {
        bytes
    };
    if digits.len() > 0 && all_digits(digits) && digits_value(digits) <= u64::MAX {
        Some(digits_value(digits) as u64)
    } else {
        None
    }
}

spec fn pow10(width: nat) -> nat
    decreases width,
{
    if width == 0 {
        1
    } else {
        10 * pow10((width - 1) as nat)
    }
}

proof fn lemma_decimal_round_trip(n: nat, width: nat)
    requires
        n < pow10(width),
    ensures
        decimal(n, width).len() == width,
        all_digits(decimal(n, width)),
        digits_value(decimal(n, width)) == n,
    decreases width,
{
    if width > 0 {
        lemma_decimal_round_trip(n / 10, (width - 1) as nat);
        assert(decimal(n, width).drop_last() =~= decimal(n / 10, (width - 1) as nat));
    }
}

/// Twenty decimal digits read back as the number they were made of.
pub proof fn lemma_decimal20_round_trip(n: u64)
    ensures
        decimal20(n).len() == 20,
        all_digits(decimal20(n)),
        parsed_u64(decimal20(n)) == Some(n),
{
    reveal_with_fuel(pow10, 21);
    lemma_decimal_round_trip(n as nat, 20);
    assert(decimal20(n)[0] != 43);
}

proof fn lemma_digits_value_monotone(bytes: Seq<u8>, len: int)
    requires
        all_digits(bytes),
        0 <= len <= bytes.len(),
    ensures
        digits_value(bytes.take(len)) <= digits_value(bytes),
    decreases bytes.len(),
{
    if len == bytes.len() {
        assert(bytes.take(len) =~= bytes);
    } else {
        lemma_digits_value_monotone(bytes.drop_last(), len);
        assert(bytes.drop_last().take(len) =~= bytes.take(len));
    }
}

fn push_decimal(target: &mut Vec<u8>, n: u64, width: u8)
    ensures
        final(target)@ == old(target)@ + decimal(n as nat, width as nat),
    decreases width,
{
    if width > 0 {
        push_decimal(target, n / 10, width - 1);
        target.push(48 + (n % 10) as u8);
    }
    assert(target@ =~= old(target)@ + decimal(n as nat, width as nat));
}

/// Appends a number in twenty decimal digits.
pub fn append_decimal20(target: &mut Vec<u8>, n: u64)
    ensures
        final(target)@ == old(target)@ + decimal20(n),
{
    push_decimal(target, n, 20);
}

/// Reads decimal digits, with an optional leading `+`.
pub fn parse_u64(bytes: &[u8]) -> (value: Option<u64>)
    ensures
        value == parsed_u64(bytes@),
{
    let start: usize = if bytes.len() > 0 && bytes[0] == 43 {
        1
    } else {
        0
    };
    let ghost digits = if start == 1 {
        bytes@.skip(1)
    } else {
        bytes@
    };
    assert(digits =~= bytes@.skip(start as int));
    if start == bytes.len() {
        return None;
    }
    let mut value: u64 = 0;
    let mut i: usize = start;
    while i < bytes.len()
        invariant
            start <= i <= bytes.len(),
            start <= 1,
            digits == bytes@.skip(start as int),
            parsed_u64(bytes@) == (if digits.len() > 0 && all_digits(digits) && digits_value(digits)
                <= u64::MAX {
                Some(digits_value(digits) as u64)
            } else {
                None
            }),
            all_digits(digits.take(i - start)),
            value == digits_value(digits.take(i - start)),
        decreases bytes.len() - i,
    {
        let digit: u8 = bytes[i];
        assert(digit == digits[i - start]);
        if digit < 48 || digit > 57 {
            return None;
        }
        proof {
            let longer = digits.take(i - start + 1);
            assert(longer.drop_last() =~= digits.take(i - start));
            assert forall|k: int| 0 <= k < longer.len() implies 48 <= #[trigger] longer[k] <= 57 by {
                if k < i - start {
                    assert(longer[k] == digits.take(i - start)[k]);
                }
            }
            if all_digits(digits) {
                lemma_digits_value_monotone(digits, i - start + 1);
            }
        }
        let unit: u64 = (digit - 48) as u64;
        if value > u64::MAX / 10 || value * 10 > u64::MAX - unit {
            return None;
        }
        value = value * 10 + unit;
        i = i + 1;
    }
    assert(digits.take(digits.len() as int) =~= digits);
    Some(value)
}

} // verus!
