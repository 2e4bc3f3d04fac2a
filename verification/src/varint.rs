//! Variable-length integers of the protocol buffer wire format.
//!
//! A number is written in groups of seven bits, least significant group first,
//! one group to a byte; the top bit of a byte says that another one follows. A
//! reader takes at most ten bytes.

use vstd::prelude::*;
use vstd::arithmetic::power::pow;
use vstd::arithmetic::power::lemma_pow_increases;
use bytes::BytesMut;
use crate::buf::buffer;

verus! {

/// The most bytes that a reader takes for one number.
pub const MAX_VARINT_LENGTH: usize = 10;

/// The number whose groups of seven bits are the lower bits of `bytes`.
pub open spec fn varint_value(bytes: Seq<u8>) -> nat
    decreases bytes.len(),
{
    if bytes.len() == 0 {
        0
    } else {
        (bytes[0] % 128) as nat + 128 * varint_value(bytes.skip(1))
    }
}

/// How many bytes the number at the start of `bytes` takes, if it ends within
/// `limit` bytes.
pub open spec fn varint_length_within(bytes: Seq<u8>, limit: nat) -> Option<nat>
    decreases limit,
{
    if limit == 0 || bytes.len() == 0 {
        None
    } else if bytes[0] < 128 {
        Some(1)
    } else {
        match varint_length_within(bytes.skip(1), (limit - 1) as nat) {
            Some(n) => Some(n + 1),
            None => None,
        }
    }
}

/// How many bytes the number at the start of `bytes` takes: `None` where the
/// bytes run out before it ends or where it is longer than ten bytes.
pub open spec fn varint_length(bytes: Seq<u8>) -> Option<nat> {
    varint_length_within(bytes, MAX_VARINT_LENGTH as nat)
}

/// The number at the start of `bytes`, with the length that it takes.
pub open spec fn varint(bytes: Seq<u8>) -> Option<(nat, nat)> {
    match varint_length(bytes) {
        Some(n) => Some((varint_value(bytes.take(n as int)), n)),
        None => None,
    }
}

/// How a number is written, in as few bytes as it takes.
pub open spec fn varint_encoding(value: nat) -> Seq<u8>
    decreases value,
{
    if value < 128 {
        seq![value as u8]
    } else {
        seq![(value % 128 + 128) as u8] + varint_encoding(value / 128)
    }
}

/// The length of a number as written.
pub open spec fn varint_size(value: nat) -> nat
    decreases value,
{
    if value < 128 {
        1
    } else {
        1 + varint_size(value / 128)
    }
}

proof fn lemma_length_within(bytes: Seq<u8>, limit: nat)
    ensures
        match varint_length_within(bytes, limit) {
            Some(n) => {
                &&& 1 <= n <= limit
                &&& n <= bytes.len()
                &&& bytes[n - 1] < 128
                &&& forall|i: int| 0 <= i < n - 1 ==> bytes[i] >= 128
            },
            None => forall|i: int| 0 <= i < limit && i < bytes.len() ==> bytes[i] >= 128,
        },
    decreases limit,
{
    if limit == 0 || bytes.len() == 0 || bytes[0] < 128 {
    } else {
        let rest = bytes.skip(1);
        lemma_length_within(rest, (limit - 1) as nat);
        match varint_length_within(rest, (limit - 1) as nat) {
            Some(n) => {
                assert(bytes[n as int] == rest[n - 1]);
                assert forall|i: int| 0 <= i < n implies bytes[i] >= 128 by {
                    if i > 0 {
                        assert(bytes[i] == rest[i - 1]);
                    }
                }
            },
            None => {
                assert forall|i: int| 0 <= i < limit && i < bytes.len() implies bytes[i] >= 128 by {
                    if i > 0 {
                        assert(bytes[i] == rest[i - 1]);
                    }
                }
            },
        }
    }
}

/// The length of a number lies between one and ten bytes, within the bytes at
/// hand.
pub proof fn lemma_varint_length(bytes: Seq<u8>)
    ensures
        varint_length(bytes) matches Some(n) ==> 1 <= n <= MAX_VARINT_LENGTH && n <= bytes.len(),
{
    lemma_length_within(bytes, MAX_VARINT_LENGTH as nat);
}

/// Where a number ends is decided by the first byte whose top bit is clear.
proof fn lemma_length_found(bytes: Seq<u8>, limit: nat, end: nat)
    requires
        end < bytes.len(),
        end < limit,
        bytes[end as int] < 128,
        forall|i: int| 0 <= i < end ==> bytes[i] >= 128,
    ensures
        varint_length_within(bytes, limit) == Some(end + 1),
    decreases end,
{
    if end > 0 {
        let rest = bytes.skip(1);
        assert(rest[end - 1] == bytes[end as int]);
        assert forall|i: int| 0 <= i < end - 1 implies rest[i] >= 128 by {
            assert(rest[i] == bytes[i + 1]);
        }
        assert(bytes[0] >= 128);
        lemma_length_found(rest, (limit - 1) as nat, (end - 1) as nat);
    }
}

proof fn lemma_value_snoc(bytes: Seq<u8>, last: u8)
    ensures
        varint_value(bytes.push(last)) == varint_value(bytes) + (last % 128) * pow(128, bytes.len()),
    decreases bytes.len(),
{
    let whole = bytes.push(last);
    if bytes.len() == 0 {
        assert(whole.skip(1) == Seq::<u8>::empty());
        assert(pow(128, 0) == 1) by {
            reveal(pow);
        }
        assert(varint_value(whole) == (last % 128) as nat + 128 * varint_value(whole.skip(1)));
    } else {
        lemma_value_snoc(bytes.skip(1), last);
        assert(whole.skip(1) == bytes.skip(1).push(last));
        let p = pow(128, (bytes.len() - 1) as nat);
        assert(pow(128, bytes.len()) == 128 * p) by {
            reveal(pow);
        }
        assert((last % 128) * (128 * p) == 128 * ((last % 128) * p)) by (nonlinear_arith);
        assert(whole[0] == bytes[0]);
    }
}

proof fn lemma_value_bound(bytes: Seq<u8>)
    ensures
        varint_value(bytes) < pow(128, bytes.len()),
    decreases bytes.len(),
{
    reveal(pow);
    if bytes.len() > 0 {
        lemma_value_bound(bytes.skip(1));
    }
}

/// Ten groups of seven bits hold seventy bits.
proof fn lemma_ten_groups()
    ensures
        pow(128, 10) == 0x40_0000_0000_0000_0000,
{
    reveal(pow);
    reveal_with_fuel(pow, 11);
}

/// Reads the number at the start of `bytes`, modulo 2^64, and its length in
/// bytes.
pub fn read_varint(bytes: &[u8]) -> (r: Option<(u64, usize)>)
    ensures
        match r {
            Some((value, len)) => varint(bytes@) matches Some((v, n)) && value == v
                % 0x1_0000_0000_0000_0000 && len == n,
            None => varint(bytes@) is None,
        },
{
    let mut acc: u128 = 0;
    let mut scale: u128 = 1;
    let mut i: usize = 0;
    proof {
        assert(pow(128, 0) == 1) by {
            reveal(pow);
        }
        lemma_ten_groups();
    }
    while i < MAX_VARINT_LENGTH && i < bytes.len()
        invariant
            i <= MAX_VARINT_LENGTH,
            i <= bytes@.len(),
            acc == varint_value(bytes@.take(i as int)),
            scale == pow(128, i as nat),
            acc < scale,
            pow(128, 10) == 0x40_0000_0000_0000_0000,
            forall|j: int| 0 <= j < i ==> bytes@[j] >= 128,
        decreases MAX_VARINT_LENGTH - i,
    {
        let b: u8 = bytes[i];
        let group: u128 = (b % 128) as u128;
        proof {
            lemma_value_snoc(bytes@.take(i as int), b);
            assert(bytes@.take(i as int).push(b) == bytes@.take(i + 1));
            lemma_value_bound(bytes@.take(i + 1));
            lemma_pow_increases(128, (i + 1) as nat, 10);
            assert(pow(128, (i + 1) as nat) == 128 * scale) by {
                reveal(pow);
            }
            assert(0 <= group * scale) by (nonlinear_arith);
        }
        acc = acc + group * scale;
        scale = scale * 128;
        if b < 128 {
            proof {
                lemma_length_found(bytes@, MAX_VARINT_LENGTH as nat, i as nat);
            }
            return Some(((acc % 0x1_0000_0000_0000_0000) as u64, i + 1));
        }
        i = i + 1;
    }
    proof {
        lemma_length_within(bytes@, MAX_VARINT_LENGTH as nat);
    }
    None
}

/// The length of a number as written, computed.
pub fn sizeof_varint(value: u64) -> (n: usize)
    ensures
        n == varint_size(value as nat),
        1 <= n <= MAX_VARINT_LENGTH,
{
    let mut rest: u64 = value;
    let mut n: usize = 1;
    while rest >= 128
        invariant
            1 <= n <= 10,
            n + varint_size(rest as nat) == 1 + varint_size(value as nat),
            n == 1 ==> rest <= 0xffff_ffff_ffff_ffff,
            n == 2 ==> rest <= 0x1ff_ffff_ffff_ffff,
            n == 3 ==> rest <= 0x3_ffff_ffff_ffff,
            n == 4 ==> rest <= 0x7ff_ffff_ffff,
            n == 5 ==> rest <= 0xf_ffff_ffff,
            n == 6 ==> rest <= 0x1fff_ffff,
            n == 7 ==> rest <= 0x3f_ffff,
            n == 8 ==> rest <= 0x7fff,
            n == 9 ==> rest <= 0xff,
            n == 10 ==> rest <= 1,
        decreases rest,
    {
        rest = rest / 128;
        n = n + 1;
    }
    n
}

/// Appends a number as written.
pub fn write_varint(out: &mut BytesMut, value: u64)
    requires
        buffer(*old(out)).len() + varint_size(value as nat) <= isize::MAX,
    ensures
        buffer(*final(out)) == buffer(*old(out)) + varint_encoding(value as nat),
{
    let mut rest: u64 = value;
    while rest >= 128
        invariant
            buffer(*out) + varint_encoding(rest as nat) == buffer(*old(out)) + varint_encoding(
                value as nat,
            ),
            buffer(*out).len() + varint_size(rest as nat) <= isize::MAX,
        decreases rest,
    {
        let ghost before = buffer(*out);
        let b: u8 = (rest % 128 + 128) as u8;
        out.extend_from_slice(&[b]);
        assert(before + seq![b] + varint_encoding((rest / 128) as nat) == before + (seq![b]
            + varint_encoding((rest / 128) as nat)));
        rest = rest / 128;
    }
    out.extend_from_slice(&[rest as u8]);
}

/// A number is written in as many bytes as [`varint_size`] says.
pub proof fn lemma_encoding_size(value: nat)
    ensures
        varint_encoding(value).len() == varint_size(value),
    decreases value,
{
    if value >= 128 {
        lemma_encoding_size(value / 128);
    }
}

proof fn lemma_round_trip_within(value: nat, rest: Seq<u8>, limit: nat)
    requires
        value < pow(128, limit),
        limit >= 1,
    ensures
        varint_length_within(varint_encoding(value) + rest, limit) == Some(varint_size(value)),
        varint_value(varint_encoding(value)) == value,
    decreases value,
{
    let encoding = varint_encoding(value);
    let whole = encoding + rest;
    lemma_encoding_size(value);
    if value < 128 {
        assert(encoding.skip(1) == Seq::<u8>::empty());
        assert(varint_value(encoding.skip(1)) == 0);
        assert(whole[0] == value as u8);
    } else {
        let tail = varint_encoding(value / 128);
        if limit == 1 {
            assert(pow(128, 1) == 128) by {
                reveal(pow);
                reveal_with_fuel(pow, 2);
            }
        }
        assert(value / 128 < pow(128, (limit - 1) as nat)) by {
            reveal(pow);
        }
        lemma_round_trip_within(value / 128, rest, (limit - 1) as nat);
        assert(encoding.skip(1) == tail);
        assert(whole.skip(1) == tail + rest);
        assert(whole[0] == (value % 128 + 128) as u8);
        assert(encoding[0] == (value % 128 + 128) as u8);
    }
}

/// A reader gets back the number that was written, whatever follows it.
pub proof fn lemma_varint_round_trip(value: u64, rest: Seq<u8>)
    ensures
        varint(varint_encoding(value as nat) + rest) == Some(
            (value as nat, varint_size(value as nat)),
        ),
{
    lemma_ten_groups();
    lemma_round_trip_within(value as nat, rest, 10);
    lemma_encoding_size(value as nat);
    let encoding = varint_encoding(value as nat);
    assert((encoding + rest).take(encoding.len() as int) == encoding);
}

/// How a number is written, seven bits at a time: what is below 128 takes one
/// byte, its own value; of any other number the lowest seven bits come first,
/// with the top bit set, and then the number that is left without them.
pub proof fn lemma_varint_is_written_by_sevens(value: nat)
    ensures
        value < 128 ==> varint_encoding(value) == seq![value as u8],
        value >= 128 ==> varint_encoding(value) == seq![(128 + value % 128) as u8]
            + varint_encoding(value / 128),
        varint_size(value) == varint_encoding(value).len(),
{
    lemma_encoding_size(value);
}

/// How a number is read, byte by byte: nothing holds no number; a first byte
/// below 128 is the number; any other first byte gives its lower seven bits, and
/// the number that follows counts 128 times. A number of more than ten bytes is
/// none.
pub proof fn lemma_varint_is_read_by_sevens(first: u8, rest: Seq<u8>)
    ensures
        varint(seq![]) is None,
        first < 128 ==> varint(seq![first] + rest) == Some((first as nat, 1nat)),
        first >= 128 ==> varint(seq![first] + rest) == match varint(rest) {
            Some((value, n)) => if n < 10 {
                Some(((first - 128 + 128 * value) as nat, n + 1))
            } else {
                None
            },
            None => None,
        },
{
    let bytes = seq![first] + rest;
    assert(bytes.skip(1) =~= rest);
    if first < 128 {
        assert(bytes.take(1) =~= seq![first]);
        assert(varint_value(bytes.take(1).skip(1)) == 0) by {
            assert(bytes.take(1).skip(1) =~= Seq::<u8>::empty());
        }
        assert(varint_value(bytes.take(1)) == first);
    } else {
        lemma_length_within(rest, 10);
        lemma_length_within(rest, 9);
        match varint_length_within(rest, 9) {
            Some(n) => {
                lemma_length_found(rest, 10, (n - 1) as nat);
                let taken = bytes.take((n + 1) as int);
                assert(taken.skip(1) =~= rest.take(n as int));
                assert(taken[0] == first);
                assert(varint_value(taken) == (first % 128) as nat + 128 * varint_value(
                    rest.take(n as int),
                ));
            },
            None => {
                match varint_length_within(rest, 10) {
                    Some(n) => {
                        if n < 10 {
                            lemma_length_found(rest, 9, (n - 1) as nat);
                        }
                    },
                    None => {},
                }
            },
        }
    }
}

/// A number of 64 bits is written in at most ten bytes.
pub proof fn lemma_varint_size_bound(value: u64)
    ensures
        1 <= varint_size(value as nat) <= MAX_VARINT_LENGTH,
{
    lemma_varint_round_trip(value, seq![]);
    lemma_varint_length(varint_encoding(value as nat) + Seq::<u8>::empty());
}

} // verus!
