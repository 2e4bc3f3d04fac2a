//! WebTransport certificate hashes.
//!
//! A responder may report the hashes of its certificates in the handshake; an
//! initiator may insist that certain ones are among them.

use vstd::prelude::*;
use vstd::slice::slice_to_vec;
use multiaddr::Protocol;
use multihash::Multihash;
use crate::varint::varint_encoding;

verus! {

/// The longest digest of a certificate hash.
pub const MAX_DIGEST_LENGTH: usize = 64;

/// A certificate hash: the code of the hash function, and a digest of at most
/// 64 bytes.
#[derive(Debug, PartialEq, Eq, Hash)]
pub struct Certhash {
    code: u64,
    digest: Vec<u8>,
}

/// A certificate hash, as mathematical values.
pub struct CerthashView {
    pub code: u64,
    pub digest: Seq<u8>,
}

/// What `Multihash::read` makes of the start of some bytes: `None` where it
/// refuses them.
pub uninterp spec fn multihash_read(bytes: Seq<u8>) -> Option<CerthashView>;

/// How `multiaddr` writes a certificate hash as text.
pub uninterp spec fn certhash_text(code: u64, digest: Seq<u8>) -> Seq<char>;

/// A multihash as bytes: the code, the length of the digest, the digest.
pub open spec fn multihash_bytes(hash: CerthashView) -> Seq<u8> {
    varint_encoding(hash.code as nat) + varint_encoding(hash.digest.len()) + hash.digest
}

/// `Multihash::to_bytes`, for a multihash made by `Multihash::wrap`, which
/// takes at most 64 bytes. The bytes read back to the same multihash.
#[verifier::external_body]
fn multihash_to_bytes(code: u64, digest: &[u8]) -> (r: Vec<u8>)
    requires
        digest@.len() <= MAX_DIGEST_LENGTH,
    ensures
        r@ == multihash_bytes((CerthashView { code, digest: digest@ })),
        multihash_read(r@) == Some((CerthashView { code, digest: digest@ })),
{
    Multihash::<64>::wrap(code, digest).expect("the digest fits").to_bytes()
}

/// `Multihash::read` on the start of some bytes. It reads no digest of more
/// than 64 bytes.
#[verifier::external_body]
fn read_multihash(bytes: &[u8]) -> (r: Option<(u64, Vec<u8>)>)
    ensures
        match r {
            Some((code, digest)) => {
                &&& digest@.len() <= MAX_DIGEST_LENGTH
                &&& multihash_read(bytes@) == Some((CerthashView { code, digest: digest@ }))
            },
            None => multihash_read(bytes@) is None,
        },
{
    Multihash::<64>::read(bytes).ok().map(|hash| (hash.code(), hash.digest().to_vec()))
}

/// `multiaddr`'s `Protocol::Certhash` as text (its `Display`).
#[verifier::external_body]
fn certhash_to_text(code: u64, digest: &[u8]) -> (r: String)
    requires
        digest@.len() <= MAX_DIGEST_LENGTH,
    ensures
        r@ == certhash_text(code, digest@),
{
    let hash = Multihash::<64>::wrap(code, digest).expect("the digest fits");
    format!("{}", Protocol::Certhash(hash))
}

impl View for Certhash {
    type V = CerthashView;

    closed spec fn view(&self) -> CerthashView {
        CerthashView { code: self.code, digest: self.digest@ }
    }
}

impl Clone for Certhash {
    fn clone(&self) -> (r: Self)
        ensures
            r@ == self@,
    {
        proof {
            use_type_invariant(self);
        }
        Certhash { code: self.code, digest: slice_to_vec(self.digest.as_slice()) }
    }
}

impl Certhash {
    #[verifier::type_invariant]
    spec fn wf(self) -> bool {
        self.digest@.len() <= MAX_DIGEST_LENGTH
    }

    /// A certificate hash, unless the digest is too long for one.
    pub fn wrap(code: u64, digest: Vec<u8>) -> (r: Option<Certhash>)
        ensures
            match r {
                Some(hash) => {
                    &&& digest@.len() <= MAX_DIGEST_LENGTH
                    &&& hash@ == (CerthashView { code, digest: digest@ })
                },
                None => digest@.len() > MAX_DIGEST_LENGTH,
            },
    {
        if digest.len() <= MAX_DIGEST_LENGTH {
            Some(Certhash { code, digest })
        } else {
            None
        }
    }

    /// The hash as bytes. They read back to the same hash.
    pub fn to_bytes(&self) -> (r: Vec<u8>)
        ensures
            r@ == multihash_bytes(self@),
            multihash_read(r@) == Some(self@),
    {
        proof {
            use_type_invariant(self);
        }
        multihash_to_bytes(self.code, self.digest.as_slice())
    }

    /// Reads a hash from the start of some bytes.
    pub fn read(bytes: &[u8]) -> (r: Option<Certhash>)
        ensures
            match r {
                Some(hash) => multihash_read(bytes@) == Some(hash@),
                None => multihash_read(bytes@) is None,
            },
    {
        match read_multihash(bytes) {
            Some((code, digest)) => Some(Certhash { code, digest }),
            None => None,
        }
    }

    /// Whether two hashes are the same.
    fn same(&self, other: &Certhash) -> (r: bool)
        ensures
            r == (self@ == other@),
    {
        if self.code != other.code || self.digest.len() != other.digest.len() {
            return false;
        }
        let mut i: usize = 0;
        while i < self.digest.len()
            invariant
                i <= self.digest@.len(),
                self.digest@.len() == other.digest@.len(),
                forall|j: int| 0 <= j < i ==> self.digest@[j] == other.digest@[j],
            decreases self.digest@.len() - i,
        {
            if self.digest[i] != other.digest[i] {
                return false;
            }
            i = i + 1;
        }
        assert(self.digest@ =~= other.digest@);
        true
    }
}

/// A hash is among some hashes.
pub open spec fn listed(hashes: Seq<Certhash>, hash: CerthashView) -> bool {
    exists|i: int| 0 <= i < hashes.len() && (#[trigger] hashes[i])@ == hash
}

/// A hash is listed just where it is one of the values of the hashes.
pub proof fn lemma_listed(hashes: Seq<Certhash>, hash: CerthashView)
    ensures
        listed(hashes, hash) <==> hashes.map_values(|h: Certhash| h@).contains(hash),
{
    let values = hashes.map_values(|h: Certhash| h@);
    if listed(hashes, hash) {
        let i = choose|i: int| 0 <= i < hashes.len() && (#[trigger] hashes[i])@ == hash;
        assert(values[i] == hash);
    }
    if values.contains(hash) {
        let i = choose|i: int| 0 <= i < values.len() && values[i] == hash;
        assert(hashes[i]@ == hash);
    }
}

/// No hash is listed twice.
pub open spec fn no_duplicates(hashes: Seq<Certhash>) -> bool {
    forall|i: int, j: int|
        0 <= i < j < hashes.len() ==> (#[trigger] hashes[i])@ != (#[trigger] hashes[j])@
}

/// Every hash of `expected` is among `received`.
pub open spec fn all_listed(expected: Seq<Certhash>, received: Seq<Certhash>) -> bool {
    forall|i: int|
        0 <= i < expected.len() ==> listed(received, (#[trigger] expected[i])@)
}

/// Whether a hash is among some hashes.
fn is_listed(hashes: &Vec<Certhash>, hash: &Certhash) -> (r: bool)
    ensures
        r == listed(hashes@, hash@),
        r == exists|i: int| 0 <= i < hashes@.len() && (#[trigger] hashes@[i])@ == hash@,
{
    let mut i: usize = 0;
    while i < hashes.len()
        invariant
            i <= hashes@.len(),
            forall|j: int| 0 <= j < i ==> (#[trigger] hashes@[j])@ != hash@,
        decreases hashes@.len() - i,
    {
        if hashes[i].same(hash) {
            assert(hashes@[i as int]@ == hash@);
            return true;
        }
        i = i + 1;
    }
    false
}

/// Whether every hash of `expected` is among `received`.
pub fn is_subset(expected: &Vec<Certhash>, received: &Vec<Certhash>) -> (r: bool)
    ensures
        r == all_listed(expected@, received@),
        r == (forall|i: int|
            0 <= i < expected@.len() ==> received@.map_values(|h: Certhash| h@).contains(
                (#[trigger] expected@[i])@,
            )),
{
    let mut i: usize = 0;
    while i < expected.len()
        invariant
            i <= expected@.len(),
            forall|j: int|
                0 <= j < i ==> listed(received@, (#[trigger] expected@[j])@),
        decreases expected@.len() - i,
    {
        if !is_listed(received, &expected[i]) {
            assert(!listed(received@, expected@[i as int]@));
            proof {
                lemma_listed(received@, expected@[i as int]@);
            }
            return false;
        }
        i = i + 1;
    }
    assert forall|j: int|
            0 <= j < expected@.len() implies received@.map_values(|h: Certhash| h@).contains(
                (#[trigger] expected@[j])@,
            ) by {
        lemma_listed(received@, expected@[j]@);
    }
    true
}

/// Adds a hash at the end, unless it is listed already.
pub(crate) fn insert(hashes: &mut Vec<Certhash>, hash: Certhash)
    requires
        no_duplicates(old(hashes)@),
    ensures
        no_duplicates(final(hashes)@),
        final(hashes)@ == if listed(old(hashes)@, hash@) {
            old(hashes)@
        } else {
            old(hashes)@.push(hash)
        },
        forall|h: CerthashView| #[trigger]
            listed(final(hashes)@, h) <==> listed(old(hashes)@, h) || h == hash@,
{
    let ghost before = hashes@;
    if !is_listed(hashes, &hash) {
        hashes.push(hash);
        assert forall|h: CerthashView| #[trigger] listed(hashes@, h) <==> listed(before, h) || h
            == hash@ by {
            if listed(before, h) {
                let i = choose|i: int| 0 <= i < before.len() && (#[trigger] before[i])@ == h;
                assert(hashes@[i]@ == h);
            }
            if h == hash@ {
                assert(hashes@[before.len() as int]@ == h);
            }
            if listed(hashes@, h) {
                let i = choose|i: int| 0 <= i < hashes@.len() && (#[trigger] hashes@[i])@ == h;
                if i < before.len() {
                    assert(before[i]@ == h);
                }
            }
        }
        assert forall|i: int, j: int|
            0 <= i < j < hashes@.len() implies (#[trigger] hashes@[i])@ != (
        #[trigger] hashes@[j])@ by {
            if j == before.len() {
                assert(hashes@[i] == before[i]);
            } else {
                assert(hashes@[i] == before[i] && hashes@[j] == before[j]);
            }
        }
    }
}

/// The hashes, each of them once, in the order in which they first occur.
pub fn distinct(hashes: &Vec<Certhash>) -> (r: Vec<Certhash>)
    ensures
        no_duplicates(r@),
        forall|h: CerthashView| #[trigger] listed(r@, h) <==> listed(hashes@, h),
        r@.len() == 0 <==> hashes@.len() == 0,
        forall|i: int, j: int|
            0 <= i < j < r@.len() ==> (#[trigger] r@[i])@ != (#[trigger] r@[j])@,
        forall|i: int|
            0 <= i < r@.len() ==> hashes@.map_values(|h: Certhash| h@).contains(
                (#[trigger] r@[i])@,
            ),
        forall|k: int|
            0 <= k < hashes@.len() ==> r@.map_values(|h: Certhash| h@).contains(
                (#[trigger] hashes@[k])@,
            ),
        forall|a: int, b: int, k: int|
            0 <= a < b < r@.len() && 0 <= k < hashes@.len() && (#[trigger] hashes@[k])@ == (
            #[trigger] r@[b])@ ==> hashes@.take(k).map_values(|h: Certhash| h@).contains(
                (#[trigger] r@[a])@,
            ),
{
    let mut r: Vec<Certhash> = Vec::new();
    let mut i: usize = 0;
    while i < hashes.len()
        invariant
            i <= hashes@.len(),
            no_duplicates(r@),
            forall|h: CerthashView| #[trigger] listed(r@, h) <==> listed(hashes@.take(i as int), h),
            r@.len() == 0 <==> i == 0,
            forall|a: int, b: int, k: int|
                0 <= a < b < r@.len() && 0 <= k < i && (#[trigger] hashes@[k])@ == (
                #[trigger] r@[b])@ ==> listed(hashes@.take(k), (#[trigger] r@[a])@),
        decreases hashes@.len() - i,
    {
        let ghost before = r@;
        let hash = hashes[i].clone();
        insert(&mut r, hash);
        assert forall|a: int, b: int, k: int|
            0 <= a < b < r@.len() && 0 <= k < i + 1 && (#[trigger] hashes@[k])@ == (
            #[trigger] r@[b])@ implies listed(hashes@.take(k), (#[trigger] r@[a])@) by {
            assert(r@[a] == before[a]);
            if k == i {
                assert(listed(before, before[a]@));
            } else if b == before.len() {
                assert(hashes@.take(i as int)[k]@ == hash@);
                assert(listed(hashes@.take(i as int), hash@));
            } else {
                assert(r@[b] == before[b]);
            }
        }
        assert forall|h: CerthashView| #[trigger] listed(r@, h) <==> listed(
            hashes@.take(i + 1),
            h,
        ) by {
            let old_part = hashes@.take(i as int);
            let new_part = hashes@.take(i + 1);
            if listed(old_part, h) {
                let k = choose|k: int| 0 <= k < old_part.len() && (#[trigger] old_part[k])@ == h;
                assert(new_part[k]@ == h);
            }
            if h == hash@ {
                assert(new_part[i as int]@ == h);
            }
            if listed(new_part, h) {
                let k = choose|k: int| 0 <= k < new_part.len() && (#[trigger] new_part[k])@ == h;
                if k < i {
                    assert(old_part[k]@ == h);
                } else {
                    assert(h == hash@);
                }
            }
            assert(listed(r@, h) <==> listed(before, h) || h == hash@);
        }
        assert(r@.len() > 0) by {
            assert(listed(r@, hash@));
        }
        i = i + 1;
    }
    assert(hashes@.take(i as int) == hashes@);
    assert forall|i: int| 0 <= i < r@.len() implies hashes@.map_values(
        |h: Certhash| h@,
    ).contains((#[trigger] r@[i])@) by {
        assert(listed(r@, r@[i]@));
        lemma_listed(hashes@, r@[i]@);
    }
    assert forall|k: int| 0 <= k < hashes@.len() implies r@.map_values(
        |h: Certhash| h@,
    ).contains((#[trigger] hashes@[k])@) by {
        assert(listed(hashes@, hashes@[k]@));
        lemma_listed(r@, hashes@[k]@);
    }
    assert forall|a: int, b: int, k: int|
        0 <= a < b < r@.len() && 0 <= k < hashes@.len() && (#[trigger] hashes@[k])@ == (
        #[trigger] r@[b])@ implies hashes@.take(k).map_values(|h: Certhash| h@).contains(
        (#[trigger] r@[a])@,
    ) by {
        lemma_listed(hashes@.take(k), r@[a]@);
    }
    r
}

/// Hashes are all among others just where each of them equals one of the others,
/// in code and in digest. None need be listed for that where none is asked for,
/// and more may be listed than are asked for.
pub proof fn lemma_all_listed(expected: Seq<Certhash>, received: Seq<Certhash>, hash: CerthashView)
    ensures
        all_listed(expected, received) <==> (forall|i: int|
            0 <= i < expected.len() ==> received.map_values(|h: Certhash| h@).contains(
                (#[trigger] expected[i])@,
            )),
        listed(received, hash) <==> exists|k: int|
            0 <= k < received.len() && (#[trigger] received[k])@ == hash,
        no_duplicates(received) <==> (forall|i: int, j: int|
            0 <= i < j < received.len() ==> (#[trigger] received[i])@ != (
            #[trigger] received[j])@),
{
    if all_listed(expected, received) {
        assert forall|i: int|
            0 <= i < expected.len() implies received.map_values(|h: Certhash| h@).contains(
                (#[trigger] expected[i])@,
            ) by {
            lemma_listed(received, expected[i]@);
        }
    }
}

/// The text of hashes is that of the one after that of the others, as `multiaddr`
/// writes each; no hashes have no text.
pub proof fn lemma_certhashes_text(hashes: Seq<Certhash>, hash: Certhash)
    ensures
        certhashes_text(hashes.push(hash)) == certhashes_text(hashes) + certhash_text(
            hash@.code,
            hash@.digest,
        ),
        certhashes_text(seq![]) == Seq::<char>::empty(),
{
    assert(hashes.push(hash).drop_last() =~= hashes);
}

/// Hashes as text, one after another.
pub open spec fn certhashes_text(hashes: Seq<Certhash>) -> Seq<char>
    decreases hashes.len(),
{
    if hashes.len() == 0 {
        seq![]
    } else {
        certhashes_text(hashes.drop_last()) + certhash_text(
            hashes.last()@.code,
            hashes.last()@.digest,
        )
    }
}

/// Writes hashes as text, one after another.
pub fn certhashes_to_string(certhashes: &Vec<Certhash>) -> (r: String)
    ensures
        r@ == certhashes_text(certhashes@),
{
    let mut s = String::new();
    let mut i: usize = 0;
    while i < certhashes.len()
        invariant
            i <= certhashes@.len(),
            s@ == certhashes_text(certhashes@.take(i as int)),
        decreases certhashes@.len() - i,
    {
        let hash = &certhashes[i];
        proof {
            use_type_invariant(hash);
            assert(certhashes@.take(i + 1).drop_last() == certhashes@.take(i as int));
        }
        let text = certhash_to_text(hash.code, hash.digest.as_slice());
        s.append(text.as_str());
        i = i + 1;
    }
    assert(certhashes@.take(i as int) == certhashes@);
    s
}

} // verus!
