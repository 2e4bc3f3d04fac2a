//! The payload of a handshake message.
//!
//! A protocol buffer message with the sender's identity key (field 1), the
//! identity's signature over the sender's static key (field 2), and optional
//! extensions (field 4) that in turn hold WebTransport certificate hashes
//! (field 1, repeated) and the names of stream multiplexers (field 2,
//! repeated).

use vstd::prelude::*;
use vstd::slice::slice_subrange;
use vstd::slice::slice_to_vec;
use vstd::utf8::*;
use bytes::BytesMut;
use crate::buf::buffer;
use crate::error::DecodeError;
use crate::varint::lemma_encoding_size;
use crate::varint::lemma_varint_length;
use crate::varint::lemma_varint_round_trip;
use crate::varint::read_varint;
use crate::varint::sizeof_varint;
use crate::varint::varint;
use crate::varint::varint_encoding;
use crate::varint::varint_size;
use crate::varint::write_varint;

verus! {

/// Extensions to the handshake payload.
#[derive(Debug, PartialEq, Eq)]
pub struct NoiseExtensions {
    pub webtransport_certhashes: Vec<Vec<u8>>,
    pub stream_muxers: Vec<String>,
}

/// The payload of a handshake message.
#[derive(Debug, PartialEq, Eq)]
pub struct NoiseHandshakePayload {
    pub identity_key: Vec<u8>,
    pub identity_sig: Vec<u8>,
    pub extensions: Option<NoiseExtensions>,
}

/// Extensions, as mathematical values.
#[verifier::ext_equal]
pub struct ExtensionsView {
    pub webtransport_certhashes: Seq<Seq<u8>>,
    pub stream_muxers: Seq<Seq<char>>,
}

/// A payload, as mathematical values.
#[verifier::ext_equal]
pub struct PayloadView {
    pub identity_key: Seq<u8>,
    pub identity_sig: Seq<u8>,
    pub extensions: Option<ExtensionsView>,
}

impl View for NoiseExtensions {
    type V = ExtensionsView;

    open spec fn view(&self) -> ExtensionsView {
        ExtensionsView {
            webtransport_certhashes: self.webtransport_certhashes@.map_values(|v: Vec<u8>| v@),
            stream_muxers: self.stream_muxers@.map_values(|s: String| s@),
        }
    }
}

impl View for NoiseHandshakePayload {
    type V = PayloadView;

    open spec fn view(&self) -> PayloadView {
        PayloadView {
            identity_key: self.identity_key@,
            identity_sig: self.identity_sig@,
            extensions: match self.extensions {
                Some(e) => Some(e@),
                None => None,
            },
        }
    }
}

/// The payload with nothing in it.
pub open spec fn empty_payload() -> PayloadView {
    PayloadView { identity_key: seq![], identity_sig: seq![], extensions: None }
}

/// Extensions with nothing in them.
pub open spec fn empty_extensions() -> ExtensionsView {
    ExtensionsView { webtransport_certhashes: seq![], stream_muxers: seq![] }
}

// ---------------------------------------------------------------------------
// Writing
// ---------------------------------------------------------------------------

/// A length-delimited field: its tag, the length of the body, the body.
pub open spec fn field(tag: u8, body: Seq<u8>) -> Seq<u8> {
    seq![tag] + varint_encoding(body.len()) + body
}

/// A field that is left out where it is empty.
pub open spec fn optional_field(tag: u8, body: Seq<u8>) -> Seq<u8> {
    if body.len() == 0 {
        seq![]
    } else {
        field(tag, body)
    }
}

/// One field for each body, in order.
pub open spec fn fields(tag: u8, bodies: Seq<Seq<u8>>) -> Seq<u8>
    decreases bodies.len(),
{
    if bodies.len() == 0 {
        seq![]
    } else {
        fields(tag, bodies.drop_last()) + field(tag, bodies.last())
    }
}

/// Each text in UTF-8.
pub open spec fn texts(muxers: Seq<Seq<char>>) -> Seq<Seq<u8>> {
    muxers.map_values(|s: Seq<char>| encode_utf8(s))
}

/// Extensions as written.
pub open spec fn extensions_encoding(e: ExtensionsView) -> Seq<u8> {
    fields(10, e.webtransport_certhashes) + fields(18, texts(e.stream_muxers))
}

/// The extensions field of a payload as written.
pub open spec fn extensions_field(e: Option<ExtensionsView>) -> Seq<u8> {
    match e {
        Some(e) => field(34, extensions_encoding(e)),
        None => seq![],
    }
}

/// A payload as written.
pub open spec fn payload_encoding(p: PayloadView) -> Seq<u8> {
    optional_field(10, p.identity_key) + optional_field(18, p.identity_sig) + extensions_field(
        p.extensions,
    )
}

/// The length of a field.
pub open spec fn field_size(len: nat) -> nat {
    1 + varint_size(len) + len
}

/// A field takes its tag, the length of the body as written, and the body.
pub proof fn lemma_field_size(tag: u8, body: Seq<u8>)
    ensures
        field(tag, body).len() == field_size(body.len()),
{
    lemma_encoding_size(body.len());
}

proof fn lemma_fields_take(tag: u8, bodies: Seq<Seq<u8>>, i: int)
    requires
        0 <= i < bodies.len(),
    ensures
        fields(tag, bodies.take(i + 1)) == fields(tag, bodies.take(i)) + field(tag, bodies[i]),
        fields(tag, bodies.take(i + 1)).len() == fields(tag, bodies.take(i)).len() + field_size(
            bodies[i].len(),
        ),
{
    assert(bodies.take(i + 1).drop_last() == bodies.take(i));
    lemma_field_size(tag, bodies[i]);
}

proof fn lemma_fields_take_bound(tag: u8, bodies: Seq<Seq<u8>>, i: int)
    requires
        0 <= i <= bodies.len(),
    ensures
        fields(tag, bodies.take(i)).len() <= fields(tag, bodies).len(),
    decreases bodies.len() - i,
{
    if i == bodies.len() {
        assert(bodies.take(i) == bodies);
    } else {
        lemma_fields_take(tag, bodies, i);
        lemma_fields_take_bound(tag, bodies, i + 1);
    }
}

/// The length of a field with a body of `len` bytes.
fn sizeof_field(len: usize) -> (n: usize)
    requires
        field_size(len as nat) <= usize::MAX,
    ensures
        n == field_size(len as nat),
{
    1 + sizeof_varint(len as u64) + len
}

/// Appends a field.
fn write_field(out: &mut BytesMut, tag: u8, body: &[u8])
    requires
        buffer(*old(out)).len() + field_size(body@.len()) <= isize::MAX,
    ensures
        buffer(*final(out)) == buffer(*old(out)) + field(tag, body@),
{
    proof {
        lemma_encoding_size(body@.len());
    }
    let ghost before = buffer(*out);
    out.extend_from_slice(&[tag]);
    write_varint(out, body.len() as u64);
    out.extend_from_slice(body);
    assert(before + seq![tag] + varint_encoding(body@.len()) + body@ == before + field(tag, body@));
}

impl NoiseExtensions {
    /// The length of the extensions as written.
    fn get_size(&self) -> (n: usize)
        requires
            extensions_encoding(self@).len() <= usize::MAX,
        ensures
            n == extensions_encoding(self@).len(),
    {
        let ghost hashes = self@.webtransport_certhashes;
        let ghost muxers = texts(self@.stream_muxers);
        let mut n: usize = 0;
        let mut i: usize = 0;
        assert(hashes.take(0) == Seq::<Seq<u8>>::empty());
        while i < self.webtransport_certhashes.len()
            invariant
                i <= self.webtransport_certhashes@.len(),
                hashes == self@.webtransport_certhashes,
                n == fields(10, hashes.take(i as int)).len(),
                fields(10, hashes).len() <= usize::MAX,
            decreases self.webtransport_certhashes@.len() - i,
        {
            let hash: &Vec<u8> = &self.webtransport_certhashes[i];
            proof {
                assert(hashes[i as int] == hash@);
                lemma_fields_take(10, hashes, i as int);
                lemma_fields_take_bound(10, hashes, i + 1);
            }
            n = n + sizeof_field(hash.len());
            i = i + 1;
        }
        assert(hashes.take(i as int) == hashes);
        assert(muxers.take(0) == Seq::<Seq<u8>>::empty());
        let mut j: usize = 0;
        while j < self.stream_muxers.len()
            invariant
                j <= self.stream_muxers@.len(),
                hashes == self@.webtransport_certhashes,
                muxers == texts(self@.stream_muxers),
                n == fields(10, hashes).len() + fields(18, muxers.take(j as int)).len(),
                fields(10, hashes).len() + fields(18, muxers).len() <= usize::MAX,
            decreases self.stream_muxers@.len() - j,
        {
            let name: &[u8] = self.stream_muxers[j].as_str().as_bytes();
            proof {
                assert(muxers[j as int] == name@);
                lemma_fields_take(18, muxers, j as int);
                lemma_fields_take_bound(18, muxers, j + 1);
            }
            n = n + sizeof_field(name.len());
            j = j + 1;
        }
        assert(muxers.take(j as int) == muxers);
        n
    }

    /// Appends the extensions as written.
    fn write_message(&self, out: &mut BytesMut)
        requires
            buffer(*old(out)).len() + extensions_encoding(self@).len() <= isize::MAX,
        ensures
            buffer(*final(out)) == buffer(*old(out)) + extensions_encoding(self@),
    {
        let ghost before = buffer(*out);
        let ghost hashes = self@.webtransport_certhashes;
        let ghost muxers = texts(self@.stream_muxers);
        let mut i: usize = 0;
        assert(hashes.take(0) == Seq::<Seq<u8>>::empty());
        while i < self.webtransport_certhashes.len()
            invariant
                i <= self.webtransport_certhashes@.len(),
                hashes == self@.webtransport_certhashes,
                buffer(*out) == before + fields(10, hashes.take(i as int)),
                before.len() + fields(10, hashes).len() <= isize::MAX,
            decreases self.webtransport_certhashes@.len() - i,
        {
            let hash: &Vec<u8> = &self.webtransport_certhashes[i];
            proof {
                assert(hashes[i as int] == hash@);
                lemma_fields_take(10, hashes, i as int);
                lemma_fields_take_bound(10, hashes, i + 1);
            }
            write_field(out, 10, hash.as_slice());
            i = i + 1;
        }
        assert(hashes.take(i as int) == hashes);
        assert(muxers.take(0) == Seq::<Seq<u8>>::empty());
        let mut j: usize = 0;
        while j < self.stream_muxers.len()
            invariant
                j <= self.stream_muxers@.len(),
                muxers == texts(self@.stream_muxers),
                buffer(*out) == before + fields(10, hashes) + fields(18, muxers.take(j as int)),
                before.len() + fields(10, hashes).len() + fields(18, muxers).len() <= isize::MAX,
            decreases self.stream_muxers@.len() - j,
        {
            let name: &[u8] = self.stream_muxers[j].as_str().as_bytes();
            proof {
                assert(muxers[j as int] == name@);
                lemma_fields_take(18, muxers, j as int);
                lemma_fields_take_bound(18, muxers, j + 1);
            }
            write_field(out, 18, name);
            j = j + 1;
        }
        assert(muxers.take(j as int) == muxers);
        assert(before + fields(10, hashes) + fields(18, muxers) == before + extensions_encoding(
            self@,
        ));
    }
}

impl NoiseExtensions {
    /// Appends the extensions as a field of a payload.
    fn write_field(&self, out: &mut BytesMut)
        requires
            buffer(*old(out)).len() + extensions_field(Some(self@)).len() <= isize::MAX,
        ensures
            buffer(*final(out)) == buffer(*old(out)) + extensions_field(Some(self@)),
    {
        let ghost before = buffer(*out);
        let ghost body = extensions_encoding(self@);
        let ghost len = varint_encoding(body.len());
        proof {
            lemma_field_size(34, body);
            lemma_encoding_size(body.len());
        }
        out.extend_from_slice(&[34u8]);
        write_varint(out, self.get_size() as u64);
        self.write_message(out);
        assert(buffer(*out) =~= before + seq![34u8] + len + body);
        assert(before + seq![34u8] + len + body =~= before + (seq![34u8] + len + body));
    }
}

impl Default for NoiseExtensions {
    fn default() -> (r: NoiseExtensions)
        ensures
            r@ == empty_extensions(),
    {
        let r = NoiseExtensions {
            webtransport_certhashes: Vec::new(),
            stream_muxers: Vec::new(),
        };
        assert(r@ =~= empty_extensions());
        r
    }
}

impl Default for NoiseHandshakePayload {
    fn default() -> (r: NoiseHandshakePayload)
        ensures
            r@ == empty_payload(),
    {
        NoiseHandshakePayload {
            identity_key: Vec::new(),
            identity_sig: Vec::new(),
            extensions: None,
        }
    }
}

impl NoiseHandshakePayload {
    /// The length of the payload as written.
    pub fn get_size(&self) -> (n: usize)
        requires
            payload_encoding(self@).len() <= usize::MAX,
        ensures
            n == payload_encoding(self@).len(),
    {
        proof {
            lemma_field_size(10, self@.identity_key);
            lemma_field_size(18, self@.identity_sig);
        }
        let mut n: usize = 0;
        if self.identity_key.len() > 0 {
            n = n + sizeof_field(self.identity_key.len());
        }
        if self.identity_sig.len() > 0 {
            n = n + sizeof_field(self.identity_sig.len());
        }
        match &self.extensions {
            Some(e) => {
                proof {
                    lemma_field_size(34, extensions_encoding(e@));
                }
                n = n + sizeof_field(e.get_size());
            },
            None => {},
        }
        n
    }

    /// Appends the payload as written.
    pub fn write_message(&self, out: &mut BytesMut)
        requires
            buffer(*old(out)).len() + payload_encoding(self@).len() <= isize::MAX,
        ensures
            buffer(*final(out)) == buffer(*old(out)) + payload_encoding(self@),
    {
        let ghost before = buffer(*out);
        let ghost key = optional_field(10, self@.identity_key);
        let ghost sig = optional_field(18, self@.identity_sig);
        let ghost ext = extensions_field(self@.extensions);
        proof {
            lemma_field_size(10, self@.identity_key);
            lemma_field_size(18, self@.identity_sig);
        }
        if self.identity_key.len() > 0 {
            write_field(out, 10, self.identity_key.as_slice());
        }
        assert(buffer(*out) =~= before + key);
        if self.identity_sig.len() > 0 {
            write_field(out, 18, self.identity_sig.as_slice());
        }
        assert(buffer(*out) =~= before + key + sig);
        match &self.extensions {
            Some(e) => {
                e.write_field(out);
            },
            None => {},
        }
        assert(buffer(*out) =~= before + key + sig + ext);
        assert(before + key + sig + ext =~= before + (key + sig + ext));
    }
}

// ---------------------------------------------------------------------------
// Reading
// ---------------------------------------------------------------------------

/// The messages whose fields are read.
#[derive(Clone, Copy, PartialEq, Eq, Structural)]
pub enum Message {
    Payload,
    Extensions,
}

/// A record at the start of some bytes: its tag, and where its body begins and
/// ends. A record that is not length-delimited, or whose tag the message does
/// not know, has its contents skipped.
pub struct Record {
    pub tag: nat,
    pub begin: nat,
    pub end: nat,
}

/// The tags of the fields that a message has, all of them length-delimited.
pub open spec fn known_tag(message: Message, tag: nat) -> bool {
    tag == 10 || tag == 18 || (message == Message::Payload && tag == 34)
}

/// How many bytes stand between the tag of a record and its body, and how long
/// the body is; `rest` is what follows the tag.
///
/// Lengths of known fields count modulo 2^32, those of unknown fields modulo
/// 2^64. There is none where the bytes run out within the length, or where the
/// wire type is one of the two group types or undefined. The contents of a
/// record that is not length-delimited count as its body.
pub open spec fn extent(known: bool, tag: nat, rest: Seq<u8>) -> Option<(nat, nat)> {
    if known {
        match varint(rest) {
            None => None,
            Some((len, m)) => Some((m, len % 0x1_0000_0000)),
        }
    } else if tag % 8 == 0 {
        match varint(rest) {
            None => None,
            Some((_, m)) => Some((0, m)),
        }
    } else if tag % 8 == 1 {
        Some((0, 8))
    } else if tag % 8 == 2 {
        match varint(rest) {
            None => None,
            Some((len, m)) => Some((m, len % 0x1_0000_0000_0000_0000)),
        }
    } else if tag % 8 == 5 {
        Some((0, 4))
    } else {
        None
    }
}

/// The record at the start of `bytes`, which must end within them. Tags count
/// modulo 2^32.
pub open spec fn first_record(message: Message, bytes: Seq<u8>) -> Option<Record> {
    match varint(bytes) {
        None => None,
        Some((key, n)) => {
            let tag = key % 0x1_0000_0000;
            match extent(known_tag(message, tag), tag, bytes.skip(n as int)) {
                None => None,
                Some((skip, len)) => if n + skip + len <= bytes.len() {
                    Some(Record { tag, begin: n + skip, end: n + skip + len })
                } else {
                    None
                },
            }
        },
    }
}

proof fn lemma_extent(known: bool, tag: nat, rest: Seq<u8>)
    ensures
        extent(known, tag, rest) matches Some((skip, _)) ==> skip <= rest.len(),
{
    lemma_varint_length(rest);
}

/// A record takes at least one byte, and none beyond those at hand.
pub proof fn lemma_first_record(message: Message, bytes: Seq<u8>)
    ensures
        first_record(message, bytes) matches Some(r) ==> 1 <= r.begin <= r.end <= bytes.len(),
{
    lemma_varint_length(bytes);
}

/// Extensions after one more record: repeated fields are appended to.
pub open spec fn with_extension(e: ExtensionsView, tag: nat, body: Seq<u8>) -> Option<
    ExtensionsView,
> {
    if tag == 10 {
        Some(
            ExtensionsView {
                webtransport_certhashes: e.webtransport_certhashes.push(body),
                stream_muxers: e.stream_muxers,
            },
        )
    } else if tag == 18 {
        if valid_utf8(body) {
            Some(
                ExtensionsView {
                    webtransport_certhashes: e.webtransport_certhashes,
                    stream_muxers: e.stream_muxers.push(decode_utf8(body)),
                },
            )
        } else {
            None
        }
    } else {
        Some(e)
    }
}

/// The extensions that `bytes` add to `e`, record by record.
pub open spec fn extensions_from(bytes: Seq<u8>, e: ExtensionsView) -> Option<ExtensionsView>
    decreases bytes.len(),
{
    if bytes.len() == 0 {
        Some(e)
    } else {
        match first_record(Message::Extensions, bytes) {
            None => None,
            Some(r) => match with_extension(
                e,
                r.tag,
                bytes.subrange(r.begin as int, r.end as int),
            ) {
                None => None,
                Some(next) => {
                    proof {
                        lemma_first_record(Message::Extensions, bytes);
                    }
                    extensions_from(bytes.skip(r.end as int), next)
                },
            },
        }
    }
}

/// A payload after one more record: a field that comes again replaces what was
/// there before.
pub open spec fn with_field(p: PayloadView, tag: nat, body: Seq<u8>) -> Option<PayloadView> {
    if tag == 10 {
        Some(PayloadView { identity_key: body, ..p })
    } else if tag == 18 {
        Some(PayloadView { identity_sig: body, ..p })
    } else if tag == 34 {
        match extensions_from(body, empty_extensions()) {
            None => None,
            Some(e) => Some(PayloadView { extensions: Some(e), ..p }),
        }
    } else {
        Some(p)
    }
}

/// The payload that `bytes` make of `p`, record by record.
pub open spec fn payload_from(bytes: Seq<u8>, p: PayloadView) -> Option<PayloadView>
    decreases bytes.len(),
{
    if bytes.len() == 0 {
        Some(p)
    } else {
        match first_record(Message::Payload, bytes) {
            None => None,
            Some(r) => match with_field(p, r.tag, bytes.subrange(r.begin as int, r.end as int)) {
                None => None,
                Some(next) => {
                    proof {
                        lemma_first_record(Message::Payload, bytes);
                    }
                    payload_from(bytes.skip(r.end as int), next)
                },
            },
        }
    }
}

/// The payload that `bytes` hold, if they hold one.
pub open spec fn parsed_payload(bytes: Seq<u8>) -> Option<PayloadView> {
    payload_from(bytes, empty_payload())
}

/// `String::from_utf8`: the text that the bytes hold in UTF-8, if they do.
#[verifier::external_body]
fn string_from_utf8(bytes: Vec<u8>) -> (r: Option<String>)
    ensures
        match r {
            Some(s) => valid_utf8(bytes@) && s@ == decode_utf8(bytes@),
            None => !valid_utf8(bytes@),
        },
{
    String::from_utf8(bytes).ok()
}

/// Reads the length of the body of a record, at the start of `rest`, where the
/// record is length-delimited, or fixes it by the wire type: how many bytes
/// stand before the body, and how long it is.
fn read_extent(known: bool, tag: u32, rest: &[u8]) -> (r: Option<(usize, u64)>)
    ensures
        match r {
            Some((skip, len)) => extent(known, tag as nat, rest@) == Some((skip as nat, len as nat)),
            None => extent(known, tag as nat, rest@) is None,
        },
{
    if known || tag % 8 == 2 {
        match read_varint(rest) {
            Some((len, m)) => if known {
                Some((m, len % 0x1_0000_0000))
            } else {
                Some((m, len))
            },
            None => None,
        }
    } else if tag % 8 == 0 {
        match read_varint(rest) {
            Some((_, m)) => Some((0, m as u64)),
            None => None,
        }
    } else if tag % 8 == 1 {
        Some((0, 8))
    } else if tag % 8 == 5 {
        Some((0, 4))
    } else {
        None
    }
}

/// Reads the record at the start of `bytes`: its tag, and where its body begins
/// and ends.
fn read_record(message: Message, bytes: &[u8]) -> (r: Option<(u32, usize, usize)>)
    ensures
        match r {
            Some((tag, begin, end)) => first_record(message, bytes@) == Some(
                Record { tag: tag as nat, begin: begin as nat, end: end as nat },
            ),
            None => first_record(message, bytes@) is None,
        },
{
    let (key, n) = match read_varint(bytes) {
        Some(found) => found,
        None => {
            return None;
        },
    };
    proof {
        lemma_varint_length(bytes@);
    }
    let tag: u32 = (key % 0x1_0000_0000) as u32;
    let rest = slice_subrange(bytes, n, bytes.len());
    assert(rest@ == bytes@.skip(n as int));
    let known: bool = tag == 10 || tag == 18 || (message == Message::Payload && tag == 34);
    match read_extent(known, tag, rest) {
        Some((skip, len)) => {
            proof {
                lemma_extent(known, tag as nat, rest@);
            }
            if len > (rest.len() - skip) as u64 {
                None
            } else {
                Some((tag, n + skip, n + skip + len as usize))
            }
        },
        None => None,
    }
}

impl NoiseExtensions {
    /// Reads extensions.
    fn from_reader(bytes: &[u8]) -> (r: Result<NoiseExtensions, DecodeError>)
        ensures
            match r {
                Ok(e) => extensions_from(bytes@, empty_extensions()) == Some(e@),
                Err(_) => extensions_from(bytes@, empty_extensions()) is None,
            },
    {
        let mut e = NoiseExtensions::default();
        let mut pos: usize = 0;
        assert(bytes@.skip(0) == bytes@);
        while pos < bytes.len()
            invariant
                pos <= bytes@.len(),
                extensions_from(bytes@.skip(pos as int), e@) == extensions_from(
                    bytes@,
                    empty_extensions(),
                ),
            decreases bytes@.len() - pos,
        {
            let rest = slice_subrange(bytes, pos, bytes.len());
            assert(rest@ == bytes@.skip(pos as int));
            proof {
                lemma_first_record(Message::Extensions, rest@);
            }
            let (tag, begin, end) = match read_record(Message::Extensions, rest) {
                Some(found) => found,
                None => {
                    return Err(DecodeError);
                },
            };
            let body = slice_subrange(rest, begin, end);
            let ghost before = e@;
            if tag == 10 {
                e.webtransport_certhashes.push(slice_to_vec(body));
                assert(e@ =~= with_extension(before, tag as nat, body@)->0);
            } else if tag == 18 {
                match string_from_utf8(slice_to_vec(body)) {
                    Some(name) => {
                        e.stream_muxers.push(name);
                        assert(e@ =~= with_extension(before, tag as nat, body@)->0);
                    },
                    None => {
                        return Err(DecodeError);
                    },
                }
            }
            assert(bytes@.skip(pos as int).skip(end as int) == bytes@.skip(pos + end));
            pos = pos + end;
        }
        assert(bytes@.skip(pos as int).len() == 0);
        Ok(e)
    }
}

impl NoiseHandshakePayload {
    /// Reads a payload.
    pub fn from_reader(bytes: &[u8]) -> (r: Result<NoiseHandshakePayload, DecodeError>)
        ensures
            match r {
                Ok(p) => parsed_payload(bytes@) == Some(p@),
                Err(_) => parsed_payload(bytes@) is None,
            },
    {
        let mut p = NoiseHandshakePayload::default();
        let mut pos: usize = 0;
        assert(bytes@.skip(0) == bytes@);
        while pos < bytes.len()
            invariant
                pos <= bytes@.len(),
                payload_from(bytes@.skip(pos as int), p@) == parsed_payload(bytes@),
            decreases bytes@.len() - pos,
        {
            let rest = slice_subrange(bytes, pos, bytes.len());
            assert(rest@ == bytes@.skip(pos as int));
            proof {
                lemma_first_record(Message::Payload, rest@);
            }
            let (tag, begin, end) = match read_record(Message::Payload, rest) {
                Some(found) => found,
                None => {
                    return Err(DecodeError);
                },
            };
            let body = slice_subrange(rest, begin, end);
            if tag == 10 {
                p.identity_key = slice_to_vec(body);
            } else if tag == 18 {
                p.identity_sig = slice_to_vec(body);
            } else if tag == 34 {
                match NoiseExtensions::from_reader(body) {
                    Ok(e) => {
                        p.extensions = Some(e);
                    },
                    Err(_) => {
                        return Err(DecodeError);
                    },
                }
            }
            assert(bytes@.skip(pos as int).skip(end as int) == bytes@.skip(pos + end));
            pos = pos + end;
        }
        assert(bytes@.skip(pos as int).len() == 0);
        Ok(p)
    }
}

// ---------------------------------------------------------------------------
// Reading what was written
// ---------------------------------------------------------------------------

proof fn lemma_field_record(message: Message, tag: u8, body: Seq<u8>, rest: Seq<u8>)
    requires
        known_tag(message, tag as nat),
        body.len() < 0x1_0000_0000,
    ensures
        first_record(message, field(tag, body) + rest) == Some(
            Record {
                tag: tag as nat,
                begin: 1 + varint_size(body.len()),
                end: field_size(body.len()),
            },
        ),
        (field(tag, body) + rest).subrange(
            (1 + varint_size(body.len())) as int,
            field_size(body.len()) as int,
        ) == body,
        (field(tag, body) + rest).skip(field_size(body.len()) as int) == rest,
        (field(tag, body) + rest).len() > 0,
{
    let bytes = field(tag, body) + rest;
    let len = varint_encoding(body.len());
    lemma_encoding_size(body.len());
    assert(varint_encoding(tag as nat) == seq![tag]);
    assert(bytes == varint_encoding(tag as nat) + (len + body + rest));
    lemma_varint_round_trip(tag as u64, len + body + rest);
    assert(varint_size(tag as nat) == 1);
    assert(bytes.skip(1) == len + (body + rest));
    lemma_varint_round_trip(body.len() as u64, body + rest);
    assert(bytes.subrange((1 + len.len()) as int, (1 + len.len() + body.len()) as int) == body);
    assert(bytes.skip((1 + len.len() + body.len()) as int) == rest);
}

/// No body is too long for its length to be read back.
pub open spec fn readable(bodies: Seq<Seq<u8>>) -> bool {
    forall|i: int| 0 <= i < bodies.len() ==> (#[trigger] bodies[i]).len() < 0x1_0000_0000
}

proof fn lemma_certhashes_read(hashes: Seq<Seq<u8>>, rest: Seq<u8>, e: ExtensionsView)
    requires
        readable(hashes),
    ensures
        extensions_from(fields(10, hashes) + rest, e) == extensions_from(
            rest,
            ExtensionsView {
                webtransport_certhashes: e.webtransport_certhashes + hashes,
                stream_muxers: e.stream_muxers,
            },
        ),
    decreases hashes.len(),
{
    if hashes.len() == 0 {
        assert(fields(10, hashes) + rest == rest);
        assert(e.webtransport_certhashes + hashes == e.webtransport_certhashes);
    } else {
        let init = hashes.drop_last();
        let last = hashes.last();
        let tail = field(10, last) + rest;
        assert(fields(10, hashes) + rest == fields(10, init) + tail);
        lemma_certhashes_read(init, tail, e);
        lemma_field_record(Message::Extensions, 10, last, rest);
        assert((e.webtransport_certhashes + init).push(last) == e.webtransport_certhashes + hashes);
    }
}

proof fn lemma_muxers_read(muxers: Seq<Seq<char>>, e: ExtensionsView)
    requires
        readable(texts(muxers)),
    ensures
        forall|rest: Seq<u8>| #[trigger]
            extensions_from(fields(18, texts(muxers)) + rest, e) == extensions_from(
                rest,
                ExtensionsView {
                    webtransport_certhashes: e.webtransport_certhashes,
                    stream_muxers: e.stream_muxers + muxers,
                },
            ),
    decreases muxers.len(),
{
    let bodies = texts(muxers);
    if muxers.len() == 0 {
        assert(e.stream_muxers + muxers == e.stream_muxers);
        assert forall|rest: Seq<u8>| #[trigger] (fields(18, bodies) + rest) == rest by {}
    } else {
        let init = muxers.drop_last();
        let last = muxers.last();
        let text = encode_utf8(last);
        assert(texts(init) == bodies.drop_last());
        assert(bodies.last() == text);
        lemma_muxers_read(init, e);
        encode_utf8_valid_utf8(last);
        encode_utf8_decode_utf8(last);
        let before = ExtensionsView {
            webtransport_certhashes: e.webtransport_certhashes,
            stream_muxers: e.stream_muxers + init,
        };
        assert(before.stream_muxers.push(last) == e.stream_muxers + muxers);
        assert forall|rest: Seq<u8>| #[trigger]
            extensions_from(fields(18, bodies) + rest, e) == extensions_from(
                rest,
                ExtensionsView {
                    webtransport_certhashes: e.webtransport_certhashes,
                    stream_muxers: e.stream_muxers + muxers,
                },
            ) by {
            let tail = field(18, text) + rest;
            assert(fields(18, bodies) + rest == fields(18, texts(init)) + tail);
            assert(extensions_from(fields(18, texts(init)) + tail, e) == extensions_from(
                tail,
                before,
            ));
            lemma_field_record(Message::Extensions, 18, text, rest);
        }
    }
}

/// Reading gives back the extensions that were written, as long as no entry is
/// of 2^32 bytes or more.
pub proof fn lemma_extensions_round_trip(e: ExtensionsView)
    requires
        readable(e.webtransport_certhashes),
        readable(texts(e.stream_muxers)),
    ensures
        extensions_from(extensions_encoding(e), empty_extensions()) == Some(e),
{
    let muxers = fields(18, texts(e.stream_muxers));
    lemma_certhashes_read(e.webtransport_certhashes, muxers, empty_extensions());
    assert(empty_extensions().webtransport_certhashes + e.webtransport_certhashes
        == e.webtransport_certhashes);
    let middle = ExtensionsView {
        webtransport_certhashes: e.webtransport_certhashes,
        stream_muxers: seq![],
    };
    lemma_muxers_read(e.stream_muxers, middle);
    assert(muxers + Seq::<u8>::empty() == muxers);
    assert(extensions_from(muxers + Seq::<u8>::empty(), middle) == Some(e)) by {
        assert(middle.stream_muxers + e.stream_muxers == e.stream_muxers);
    }
}

/// A payload none of whose fields is of 2^32 bytes or more, the limit of what a
/// reader takes a length for.
pub open spec fn readable_payload(p: PayloadView) -> bool {
    &&& p.identity_key.len() < 0x1_0000_0000
    &&& p.identity_sig.len() < 0x1_0000_0000
    &&& p.extensions matches Some(e) ==> extensions_encoding(e).len() < 0x1_0000_0000
}

proof fn lemma_fields_longer(tag: u8, bodies: Seq<Seq<u8>>)
    ensures
        forall|i: int|
            0 <= i < bodies.len() ==> (#[trigger] bodies[i]).len() <= fields(tag, bodies).len(),
    decreases bodies.len(),
{
    if bodies.len() > 0 {
        lemma_fields_longer(tag, bodies.drop_last());
        lemma_field_size(tag, bodies.last());
        assert forall|i: int| 0 <= i < bodies.len() implies (#[trigger] bodies[i]).len() <= fields(
            tag,
            bodies,
        ).len() by {
            if i < bodies.len() - 1 {
                assert(bodies.drop_last()[i] == bodies[i]);
            }
        }
    }
}

proof fn lemma_payload_field(tag: u8, body: Seq<u8>, rest: Seq<u8>, p: PayloadView)
    requires
        known_tag(Message::Payload, tag as nat),
        body.len() < 0x1_0000_0000,
        with_field(p, tag as nat, body) is Some,
    ensures
        payload_from(field(tag, body) + rest, p) == payload_from(
            rest,
            with_field(p, tag as nat, body)->0,
        ),
{
    lemma_field_record(Message::Payload, tag, body, rest);
}

/// A payload that is written in less than 2^32 bytes, such as one that fits a
/// Noise message, has no longer field.
pub proof fn lemma_short_payload_is_readable(p: PayloadView)
    requires
        payload_encoding(p).len() < 0x1_0000_0000,
    ensures
        readable_payload(p),
{
    lemma_field_size(10, p.identity_key);
    lemma_field_size(18, p.identity_sig);
    match p.extensions {
        Some(e) => {
            lemma_field_size(34, extensions_encoding(e));
        },
        None => {},
    }
}

/// Reading gives back the payload that was written.
pub proof fn lemma_payload_round_trip(p: PayloadView)
    requires
        readable_payload(p),
    ensures
        parsed_payload(payload_encoding(p)) == Some(p),
{
    let key = optional_field(10, p.identity_key);
    let sig = optional_field(18, p.identity_sig);
    let ext = extensions_field(p.extensions);
    let none = empty_payload();
    let with_key = PayloadView { identity_key: p.identity_key, ..none };
    let with_sig = PayloadView { extensions: None, ..p };
    assert(payload_encoding(p) == key + (sig + ext));
    assert(payload_from(key + (sig + ext), none) == payload_from(sig + ext, with_key)) by {
        if p.identity_key.len() == 0 {
            assert(key + (sig + ext) == sig + ext);
            assert(with_key =~= none);
        } else {
            lemma_payload_field(10, p.identity_key, sig + ext, none);
        }
    }
    assert(payload_from(sig + ext, with_key) == payload_from(ext, with_sig)) by {
        if p.identity_sig.len() == 0 {
            assert(sig + ext == ext);
            assert(with_sig =~= with_key);
        } else {
            lemma_payload_field(18, p.identity_sig, ext, with_key);
        }
    }
    assert(payload_from(ext, with_sig) == Some(p)) by {
        match p.extensions {
            None => {
                assert(with_sig == p);
            },
            Some(e) => {
                let body = extensions_encoding(e);
                lemma_fields_longer(10, e.webtransport_certhashes);
                lemma_fields_longer(18, texts(e.stream_muxers));
                lemma_extensions_round_trip(e);
                lemma_payload_field(34, body, seq![], with_sig);
                assert(field(34, body) + Seq::<u8>::empty() == ext);
            },
        }
    }
}

/// A payload, as mathematical values, is what its fields hold.
pub proof fn lemma_payload_values(p: NoiseHandshakePayload, e: NoiseExtensions)
    ensures
        p@.identity_key == p.identity_key@,
        p@.identity_sig == p.identity_sig@,
        p@.extensions is Some <==> p.extensions is Some,
        p.extensions matches Some(inner) ==> p@.extensions == Some(inner@),
        e@.webtransport_certhashes.len() == e.webtransport_certhashes@.len(),
        forall|i: int|
            0 <= i < e.webtransport_certhashes@.len() ==> #[trigger] e@.webtransport_certhashes[i]
                == e.webtransport_certhashes@[i]@,
        e@.stream_muxers.len() == e.stream_muxers@.len(),
        forall|i: int|
            0 <= i < e.stream_muxers@.len() ==> #[trigger] e@.stream_muxers[i]
                == e.stream_muxers@[i]@,
        empty_payload().identity_key.len() == 0,
        empty_payload().identity_sig.len() == 0,
        empty_payload().extensions is None,
        empty_extensions().webtransport_certhashes.len() == 0,
        empty_extensions().stream_muxers.len() == 0,
{
}

/// How a payload is written: the identity key after the byte 0x0a and its length,
/// the signature after 0x12 and its length, the extensions after 0x22 and their
/// length; a key or a signature that is empty is left out, as are extensions
/// that there are none of. In the extensions each certificate hash stands after
/// 0x0a and its length, and then each name, in UTF-8, after 0x12 and its length.
pub proof fn lemma_payload_is_written_by_fields(
    p: PayloadView,
    e: ExtensionsView,
    hash: Seq<u8>,
    name: Seq<char>,
)
    ensures
        payload_encoding(p) == (if p.identity_key.len() == 0 {
            Seq::<u8>::empty()
        } else {
            seq![0x0au8] + varint_encoding(p.identity_key.len()) + p.identity_key
        }) + (if p.identity_sig.len() == 0 {
            Seq::<u8>::empty()
        } else {
            seq![0x12u8] + varint_encoding(p.identity_sig.len()) + p.identity_sig
        }) + (match p.extensions {
            None => Seq::<u8>::empty(),
            Some(inner) => seq![0x22u8] + varint_encoding(extensions_encoding(inner).len())
                + extensions_encoding(inner),
        }),
        extensions_encoding(
            (ExtensionsView { webtransport_certhashes: seq![], stream_muxers: seq![] }),
        ) == Seq::<u8>::empty(),
        e.stream_muxers.len() == 0 ==> extensions_encoding(
            (ExtensionsView {
                webtransport_certhashes: e.webtransport_certhashes.push(hash),
                stream_muxers: e.stream_muxers,
            }),
        ) == extensions_encoding(e) + (seq![0x0au8] + varint_encoding(hash.len()) + hash),
        extensions_encoding(
            (ExtensionsView {
                webtransport_certhashes: e.webtransport_certhashes,
                stream_muxers: e.stream_muxers.push(name),
            }),
        ) == extensions_encoding(e) + (seq![0x12u8] + varint_encoding(encode_utf8(name).len())
            + encode_utf8(name)),
{
    let none = ExtensionsView { webtransport_certhashes: seq![], stream_muxers: seq![] };
    assert(extensions_encoding(none) =~= Seq::<u8>::empty());
    assert(e.webtransport_certhashes.push(hash).drop_last() =~= e.webtransport_certhashes);
    assert(texts(e.stream_muxers.push(name)).drop_last() =~= texts(e.stream_muxers));
    assert(texts(e.stream_muxers.push(name)).last() == encode_utf8(name));
    let more = ExtensionsView {
        webtransport_certhashes: e.webtransport_certhashes.push(hash),
        stream_muxers: e.stream_muxers,
    };
    if e.stream_muxers.len() == 0 {
        assert(extensions_encoding(more) =~= extensions_encoding(e) + (seq![0x0au8]
            + varint_encoding(hash.len()) + hash));
    }
    let named = ExtensionsView {
        webtransport_certhashes: e.webtransport_certhashes,
        stream_muxers: e.stream_muxers.push(name),
    };
    assert(extensions_encoding(named) =~= extensions_encoding(e) + (seq![0x12u8]
        + varint_encoding(encode_utf8(name).len()) + encode_utf8(name)));
}

/// How a payload is read, record by record. The number in front of a record,
/// modulo 2^32, says what it is: 10 the identity key, 18 the signature, 34 the
/// extensions, each with its length, modulo 2^32, and so many bytes; what comes
/// again replaces what came before. Any other record is passed over, by its
/// wire type: a number, eight bytes, a length and so many bytes, or four bytes.
/// There is no payload where a record does not end within the bytes, where its
/// wire type is another one, or where its extensions do not read.
pub proof fn lemma_payload_is_read_by_records(bytes: Seq<u8>, p: PayloadView)
    ensures
        parsed_payload(bytes) == payload_from(
            bytes,
            (PayloadView { identity_key: seq![], identity_sig: seq![], extensions: None }),
        ),
        payload_from(seq![], p) == Some(p),
        bytes.len() > 0 ==> payload_from(bytes, p) == match varint(bytes) {
            None => None,
            Some((key, n)) => {
                let tag = key % 0x1_0000_0000;
                let after = bytes.skip(n as int);
                if tag == 10 || tag == 18 || tag == 34 {
                    match varint(after) {
                        None => None,
                        Some((len, m)) => {
                            let begin = (n + m) as int;
                            let end = begin + len % 0x1_0000_0000;
                            if end > bytes.len() {
                                None
                            } else if tag == 10 {
                                payload_from(
                                    bytes.skip(end),
                                    PayloadView { identity_key: bytes.subrange(begin, end), ..p },
                                )
                            } else if tag == 18 {
                                payload_from(
                                    bytes.skip(end),
                                    PayloadView { identity_sig: bytes.subrange(begin, end), ..p },
                                )
                            } else {
                                match extensions_from(
                                    bytes.subrange(begin, end),
                                    ExtensionsView {
                                        webtransport_certhashes: seq![],
                                        stream_muxers: seq![],
                                    },
                                ) {
                                    None => None,
                                    Some(e) => payload_from(
                                        bytes.skip(end),
                                        PayloadView { extensions: Some(e), ..p },
                                    ),
                                }
                            }
                        },
                    }
                } else if tag % 8 == 0 {
                    match varint(after) {
                        None => None,
                        Some((_, m)) => payload_from(bytes.skip((n + m) as int), p),
                    }
                } else if tag % 8 == 1 {
                    if n + 8 > bytes.len() {
                        None
                    } else {
                        payload_from(bytes.skip((n + 8) as int), p)
                    }
                } else if tag % 8 == 2 {
                    match varint(after) {
                        None => None,
                        Some((len, m)) => if n + m + len % 0x1_0000_0000_0000_0000 > bytes.len() {
                            None
                        } else {
                            payload_from(
                                bytes.skip((n + m + len % 0x1_0000_0000_0000_0000) as int),
                                p,
                            )
                        },
                    }
                } else if tag % 8 == 5 {
                    if n + 4 > bytes.len() {
                        None
                    } else {
                        payload_from(bytes.skip((n + 4) as int), p)
                    }
                } else {
                    None
                }
            },
        },
{
    lemma_varint_length(bytes);
    match varint(bytes) {
        Some((_, n)) => {
            lemma_varint_length(bytes.skip(n as int));
        },
        None => {},
    }
}

/// How extensions are read, record by record: 10 is one more certificate hash, 18
/// one more name, which must be UTF-8, each with its length, modulo 2^32, and so
/// many bytes. Other records are passed over as those of a payload are.
pub proof fn lemma_extensions_are_read_by_records(bytes: Seq<u8>, e: ExtensionsView)
    ensures
        extensions_from(seq![], e) == Some(e),
        bytes.len() > 0 ==> extensions_from(bytes, e) == match varint(bytes) {
            None => None,
            Some((key, n)) => {
                let tag = key % 0x1_0000_0000;
                let after = bytes.skip(n as int);
                if tag == 10 || tag == 18 {
                    match varint(after) {
                        None => None,
                        Some((len, m)) => {
                            let begin = (n + m) as int;
                            let end = begin + len % 0x1_0000_0000;
                            if end > bytes.len() {
                                None
                            } else if tag == 10 {
                                extensions_from(
                                    bytes.skip(end),
                                    ExtensionsView {
                                        webtransport_certhashes: e.webtransport_certhashes.push(
                                            bytes.subrange(begin, end),
                                        ),
                                        stream_muxers: e.stream_muxers,
                                    },
                                )
                            } else if valid_utf8(bytes.subrange(begin, end)) {
                                extensions_from(
                                    bytes.skip(end),
                                    ExtensionsView {
                                        webtransport_certhashes: e.webtransport_certhashes,
                                        stream_muxers: e.stream_muxers.push(
                                            decode_utf8(bytes.subrange(begin, end)),
                                        ),
                                    },
                                )
                            } else {
                                None
                            }
                        },
                    }
                } else if tag % 8 == 0 {
                    match varint(after) {
                        None => None,
                        Some((_, m)) => extensions_from(bytes.skip((n + m) as int), e),
                    }
                } else if tag % 8 == 1 {
                    if n + 8 > bytes.len() {
                        None
                    } else {
                        extensions_from(bytes.skip((n + 8) as int), e)
                    }
                } else if tag % 8 == 2 {
                    match varint(after) {
                        None => None,
                        Some((len, m)) => if n + m + len % 0x1_0000_0000_0000_0000 > bytes.len() {
                            None
                        } else {
                            extensions_from(
                                bytes.skip((n + m + len % 0x1_0000_0000_0000_0000) as int),
                                e,
                            )
                        },
                    }
                } else if tag % 8 == 5 {
                    if n + 4 > bytes.len() {
                        None
                    } else {
                        extensions_from(bytes.skip((n + 4) as int), e)
                    }
                } else {
                    None
                }
            },
        },
{
    lemma_varint_length(bytes);
    match varint(bytes) {
        Some((_, n)) => {
            lemma_varint_length(bytes.skip(n as int));
        },
        None => {},
    }
}

/// A payload takes no bytes just where there is nothing in it.
pub proof fn lemma_empty_payload(p: PayloadView)
    ensures
        payload_encoding(p).len() == 0 <==> p == empty_payload(),
{
    lemma_field_size(10, p.identity_key);
    lemma_field_size(18, p.identity_sig);
    if payload_encoding(p).len() == 0 {
        assert(p =~= empty_payload());
    }
}

} // verus!
