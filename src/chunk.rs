use crate::chunk_type::{ascii_text, is_type_code, lossy_string, utf8_lossy, ChunkType};
use vstd::prelude::*;
use vstd::string::*;

verus! {

/// Why a byte frame is not a chunk.
#[derive(Debug, Clone, Copy, PartialEq, Eq, Structural)]
pub enum ChunkError {
    /// Fewer than eight bytes: no room for the length and the type.
    FrameTooShort,
    /// The frame's size is not twelve bytes plus the declared length.
    LengthMismatch,
    /// The type bytes are not four ASCII letters.
    InvalidChunkType,
    /// The stored checksum differs from the one computed over type and data.
    CrcMismatch,
}

/// The CRC-32 (IEEE) of a byte sequence.
pub uninterp spec fn crc32_ieee(bytes: Seq<u8>) -> u32;

/// Relies on crc::crc32::checksum_ieee: the CRC-32 (IEEE polynomial) of the
/// bytes, which depends on the bytes alone; the empty input gives 0.
#[verifier::external_body]
fn checksum_ieee(bytes: &[u8]) -> (r: u32)
    ensures
        r == crc32_ieee(bytes@),
        bytes@.len() == 0 ==> r == 0,
{
    crc::crc32::checksum_ieee(bytes)
}

/// The decimal digits of `n`, most significant first.
pub open spec fn decimal(n: nat) -> Seq<char>
    decreases n,
{
    if n < 10 {
        seq![((48 + n) as u8) as char]
    } else {
        decimal(n / 10).push(((48 + n % 10) as u8) as char)
    }
}

/// Relies on the `Display` impl of `usize` (through `to_string`): the number
/// written in decimal, with no sign and no leading zero.
#[verifier::external_body]
fn decimal_string(n: usize) -> (r: String)
    ensures
        r@ == decimal(n as nat),
{
    n.to_string()
}

/// The four bytes of `x`, most significant first.
pub open spec fn be_bytes(x: u32) -> Seq<u8> {
    seq![(x >> 24u32) as u8, (x >> 16u32) as u8, (x >> 8u32) as u8, x as u8]
}

/// The number that four bytes give, read most significant first.
pub open spec fn be_value(b0: u8, b1: u8, b2: u8, b3: u8) -> u32 {
    ((b0 as u32) << 24u32) | ((b1 as u32) << 16u32) | ((b2 as u32) << 8u32) | (b3 as u32)
}

/// The number at offset `at` of `b`, read big-endian.
pub open spec fn be_at(b: Seq<u8>, at: int) -> u32 {
    be_value(b[at], b[at + 1], b[at + 2], b[at + 3])
}

pub proof fn lemma_be_round_trip(x: u32)
    ensures
        be_at(be_bytes(x), 0) == x,
{
    let b0 = (x >> 24u32) as u8;
    let b1 = (x >> 16u32) as u8;
    let b2 = (x >> 8u32) as u8;
    let b3 = x as u8;
    assert(be_value(b0, b1, b2, b3) == x) by (bit_vector)
        requires
            b0 == (x >> 24u32) as u8,
            b1 == (x >> 16u32) as u8,
            b2 == (x >> 8u32) as u8,
            b3 == x as u8,
    ;
}

pub(crate) fn read_be(b: &[u8], at: usize) -> (r: u32)
    requires
        at + 4 <= b@.len(),
    ensures
        r == be_at(b@, at as int),
{
    ((b[at] as u32) << 24u32) | ((b[at + 1] as u32) << 16u32) | ((b[at + 2] as u32) << 8u32) | (
    b[at + 3] as u32)
}

fn push_be(out: &mut Vec<u8>, x: u32)
    ensures
        final(out)@ == old(out)@ + be_bytes(x),
{
    out.push((x >> 24u32) as u8);
    out.push((x >> 16u32) as u8);
    out.push((x >> 8u32) as u8);
    out.push(x as u8);
    assert(final(out)@ =~= old(out)@ + be_bytes(x));
}

pub(crate) fn push_all(out: &mut Vec<u8>, src: &[u8])
    ensures
        final(out)@ == old(out)@ + src@,
{
    let mut i: usize = 0;
    while i < src.len()
        invariant
            0 <= i <= src@.len(),
            out@ == old(out)@ + src@.subrange(0, i as int),
        decreases src@.len() - i,
    {
        out.push(src[i]);
        i = i + 1;
        assert(out@ =~= old(out)@ + src@.subrange(0, i as int));
    }
    assert(src@.subrange(0, i as int) =~= src@);
}

/// A chunk as a value: its type bytes and its data.
pub type ChunkView = (Seq<u8>, Seq<u8>);

/// A chunk that a frame may carry: a four-letter type and data whose length
/// fits the 32-bit length field.
pub open spec fn valid_chunk(c: ChunkView) -> bool {
    is_type_code(c.0) && c.1.len() <= u32::MAX
}

/// The checksum of a chunk: over its type bytes followed by its data.
pub open spec fn chunk_crc(c: ChunkView) -> u32 {
    crc32_ieee(c.0 + c.1)
}

/// The wire frame of a chunk: length, type, data and checksum.
pub open spec fn frame_of(c: ChunkView) -> Seq<u8> {
    be_bytes(c.1.len() as u32) + c.0 + c.1 + be_bytes(chunk_crc(c))
}

/// The length that a frame declares in its first four bytes.
pub open spec fn declared_len(b: Seq<u8>) -> u32 {
    be_at(b, 0)
}

/// What the framing of `b` gives, before the checksum is compared: the chunk
/// and the stored checksum, or the first framing error.
pub open spec fn split_frame_spec(b: Seq<u8>) -> Result<(ChunkView, u32), ChunkError> {
    if b.len() < 8 {
        Err(ChunkError::FrameTooShort)
    } else if b.len() != 12 + declared_len(b) {
        Err(ChunkError::LengthMismatch)
    } else if !is_type_code(b.subrange(4, 8)) {
        Err(ChunkError::InvalidChunkType)
    } else {
        Ok(((b.subrange(4, 8), b.subrange(8, b.len() - 4)), be_at(b, b.len() - 4)))
    }
}

/// What decoding the frame `b` gives, with the stored checksum held against
/// `computed`.
pub open spec fn check_frame(b: Seq<u8>, computed: u32) -> Result<ChunkView, ChunkError> {
    match split_frame_spec(b) {
        Err(e) => Err(e),
        Ok((c, stored)) => if stored == computed {
            Ok(c)
        } else {
            Err(ChunkError::CrcMismatch)
        },
    }
}

/// What decoding the frame `b` gives.
pub open spec fn decode_frame(b: Seq<u8>) -> Result<ChunkView, ChunkError> {
    match split_frame_spec(b) {
        Err(e) => Err(e),
        Ok((c, stored)) => if stored == chunk_crc(c) {
            Ok(c)
        } else {
            Err(ChunkError::CrcMismatch)
        },
    }
}

/// Decoding the frame of a chunk gives the chunk back.
pub proof fn lemma_chunk_round_trip(c: ChunkView)
    requires
        valid_chunk(c),
    ensures
        decode_frame(frame_of(c)) == Ok::<_, ChunkError>(c),
{
    let b = frame_of(c);
    let n = c.1.len();
    lemma_be_round_trip(n as u32);
    lemma_be_round_trip(chunk_crc(c));
    assert(b.len() == 12 + n);
    assert(b.subrange(0, 4) =~= be_bytes(n as u32));
    assert(declared_len(b) == n);
    assert(b.subrange(4, 8) =~= c.0);
    assert(b.subrange(8, b.len() - 4) =~= c.1);
    assert(b.subrange(b.len() - 4, b.len() as int) =~= be_bytes(chunk_crc(c)));
    assert(be_at(b, b.len() - 4) == chunk_crc(c));
}

/// A frame that stores any checksum other than the one of its type and data
/// (as after a bit of either was flipped in transit) is refused with
/// `CrcMismatch`.
pub proof fn lemma_stale_checksum_refused(c: ChunkView, stored: u32)
    requires
        valid_chunk(c),
        stored != chunk_crc(c),
    ensures
        decode_frame(be_bytes(c.1.len() as u32) + c.0 + c.1 + be_bytes(stored)) == Err::<
            ChunkView,
            _,
        >(ChunkError::CrcMismatch),
{
    let b = be_bytes(c.1.len() as u32) + c.0 + c.1 + be_bytes(stored);
    let n = c.1.len();
    lemma_be_round_trip(n as u32);
    lemma_be_round_trip(stored);
    assert(b.subrange(0, 4) =~= be_bytes(n as u32));
    assert(b.subrange(4, 8) =~= c.0);
    assert(b.subrange(8, b.len() - 4) =~= c.1);
    assert(b.subrange(b.len() - 4, b.len() as int) =~= be_bytes(stored));
    assert(be_at(b, b.len() - 4) == stored);
}

/// The short text of a chunk's data: the data read as UTF-8 when it is under
/// 64 bytes, else a note of its size.
pub open spec fn data_text(d: Seq<u8>) -> Seq<char> {
    if d.len() < 64 {
        utf8_lossy(d)
    } else {
        "[.. "@ + decimal(d.len()) + " bytes ..]"@
    }
}

/// The diagnostic text of a chunk: its type, the text of its data and its length.
pub open spec fn chunk_text(c: ChunkView) -> Seq<char> {
    "Chunk{type: "@ + ascii_text(c.0) + ", data: '"@ + data_text(c.1) + "', len: "@ + decimal(
        c.1.len(),
    ) + "}"@
}

/// A typed piece of data.
#[derive(Debug)]
pub struct Chunk {
    chunk_type: ChunkType,
    data: Vec<u8>,
}

impl View for Chunk {
    type V = ChunkView;

    closed spec fn view(&self) -> ChunkView {
        (self.chunk_type@, self.data@)
    }
}

impl Chunk {
    pub open spec fn wf(&self) -> bool {
        valid_chunk(self@)
    }

    pub fn new(chunk_type: ChunkType, data: Vec<u8>) -> (r: Chunk)
        requires
            chunk_type.wf(),
            data@.len() <= u32::MAX,
        ensures
            r@ == (chunk_type@, data@),
            r.wf(),
    {
        Chunk { chunk_type, data }
    }

    /// The number of data bytes.
    pub fn length(&self) -> (r: u32)
        requires
            self.wf(),
        ensures
            r == self@.1.len(),
    {
        self.data.len() as u32
    }

    pub fn chunk_type(&self) -> (r: &ChunkType)
        ensures
            r@ == self@.0,
            self.wf() ==> r.wf(),
    {
        &self.chunk_type
    }

    pub fn data(&self) -> (r: &[u8])
        ensures
            r@ == self@.1,
    {
        self.data.as_slice()
    }

    fn type_and_data_bytes(&self) -> (r: Vec<u8>)
        ensures
            r@ == self@.0 + self@.1,
    {
        let mut bytes: Vec<u8> = Vec::new();
        push_all(&mut bytes, self.chunk_type.bytes().as_slice());
        push_all(&mut bytes, self.data.as_slice());
        bytes
    }

    /// The CRC-32 over the type bytes followed by the data.
    pub fn crc(&self) -> (r: u32)
        ensures
            r == chunk_crc(self@),
    {
        let bytes = self.type_and_data_bytes();
        checksum_ieee(bytes.as_slice())
    }

    /// The data as text when it is short, else a note of its size.
    pub fn data_as_string(&self) -> (r: Result<String, ChunkError>)
        ensures
            r matches Ok(s) && s@ == data_text(self@.1),
    {
        if self.data.len() < 64 {
            Ok(lossy_string(self.data.as_slice()))
        } else {
            let s = String::from_str("[.. ");
            let n = decimal_string(self.data.len());
            let s = s.concat(n.as_str());
            let s = s.concat(" bytes ..]");
            Ok(s)
        }
    }

    /// A one-line description for people to read.
    pub fn to_string(&self) -> (r: String)
        requires
            self.wf(),
        ensures
            r@ == chunk_text(self@),
    {
        let t = self.chunk_type.to_string();
        let d = match self.data_as_string() {
            Ok(d) => d,
            Err(_) => String::new(),
        };
        let n = decimal_string(self.data.len());
        let s = String::from_str("Chunk{type: ");
        let s = s.concat(t.as_str());
        let s = s.concat(", data: '");
        let s = s.concat(d.as_str());
        let s = s.concat("', len: ");
        let s = s.concat(n.as_str());
        s.concat("}")
    }

    /// The wire frame: length, type, data and checksum.
    pub fn as_bytes(&self) -> (r: Vec<u8>)
        requires
            self.wf(),
        ensures
            r@ == frame_of(self@),
    {
        let mut bytes: Vec<u8> = Vec::new();
        push_be(&mut bytes, self.length());
        push_all(&mut bytes, self.chunk_type.bytes().as_slice());
        push_all(&mut bytes, self.data.as_slice());
        push_be(&mut bytes, self.crc());
        bytes
    }

    /// Reads the framing of `value`: the chunk it carries and the checksum it
    /// stores, which is not compared here.
    pub fn split_frame(value: &[u8]) -> (r: Result<(Chunk, u32), ChunkError>)
        ensures
            match r {
                Ok((c, stored)) => split_frame_spec(value@) == Ok::<_, ChunkError>(
                    (c@, stored),
                ) && c.wf(),
                Err(e) => split_frame_spec(value@) == Err::<(ChunkView, u32), _>(e),
            },
    {
        let total_len = value.len();
        if total_len < 8 {
            return Err(ChunkError::FrameTooShort);
        }
        let data_len = read_be(value, 0);
        if total_len as u64 != 12 + data_len as u64 {
            return Err(ChunkError::LengthMismatch);
        }
        let type_bytes: [u8; 4] = [value[4], value[5], value[6], value[7]];
        let chunk_type = match ChunkType::try_from(type_bytes) {
            Ok(t) => t,
            Err(_) => {
                assert(type_bytes@ =~= value@.subrange(4, 8));
                return Err(ChunkError::InvalidChunkType);
            },
        };
        assert(type_bytes@ =~= value@.subrange(4, 8));
        let mut data: Vec<u8> = Vec::new();
        push_all(&mut data, &value[8..total_len - 4]);
        let stored = read_be(value, total_len - 4);
        Ok((Chunk { chunk_type, data }, stored))
    }

    /// Decodes one frame, holding its stored checksum against `computed`.
    pub fn from_frame_with_crc(value: &[u8], computed: u32) -> (r: Result<Chunk, ChunkError>)
        ensures
            match r {
                Ok(c) => check_frame(value@, computed) == Ok::<_, ChunkError>(c@) && c.wf(),
                Err(e) => check_frame(value@, computed) == Err::<ChunkView, _>(e),
            },
    {
        match Chunk::split_frame(value) {
            Err(e) => Err(e),
            Ok((c, stored)) => if stored == computed {
                Ok(c)
            } else {
                Err(ChunkError::CrcMismatch)
            },
        }
    }

    /// Decodes one frame: length, type, data and checksum, in that order,
    /// filling `value` exactly.
    pub fn try_from(value: &[u8]) -> (r: Result<Chunk, ChunkError>)
        ensures
            match r {
                Ok(c) => decode_frame(value@) == Ok::<_, ChunkError>(c@) && c.wf(),
                Err(e) => decode_frame(value@) == Err::<ChunkView, _>(e),
            },
    {
        match Chunk::split_frame(value) {
            Err(e) => Err(e),
            Ok((c, stored)) => {
                let computed = c.crc();
                Chunk::from_frame_with_crc(value, computed)
            },
        }
    }
}

/// What the conversion returns is stated on the inherent `Chunk::try_from`.
impl<'a> vstd::std_specs::convert::TryFromSpecImpl<&'a [u8]> for Chunk {
    open spec fn obeys_try_from_spec() -> bool {
        false
    }

    open spec fn try_from_spec(v: &'a [u8]) -> Result<Chunk, ChunkError> {
        arbitrary()
    }
}

impl<'a> TryFrom<&'a [u8]> for Chunk {
    type Error = ChunkError;

    fn try_from(value: &'a [u8]) -> Result<Chunk, ChunkError> {
        Chunk::try_from(value)
    }
}

} // verus!
