use crate::chunk::{
    chunk_text, declared_len, decode_frame, frame_of, lemma_be_round_trip, lemma_chunk_round_trip,
    push_all, read_be, valid_chunk, Chunk, ChunkError, ChunkView,
};
use crate::chunk_type::{ascii_text, lemma_ascii_text_injective, lemma_type_text, ChunkType};
use vstd::prelude::*;
use vstd::string::*;

verus! {

/// Why bytes are not a document, or why a chunk was not found in one.
#[derive(Debug, Clone, Copy, PartialEq, Eq, Structural)]
pub enum PngError {
    /// The first eight bytes are not the signature.
    SignatureMismatch,
    /// A chunk frame could not be decoded.
    Chunk(ChunkError),
    /// Bytes are left after the last whole frame, or the last frame is cut short.
    TrailingDataMismatch,
    /// No chunk has the type that was asked for.
    ChunkNotFound,
}

/// The signature that opens every document.
pub const STANDARD_HEADER: [u8; 8] = [137, 80, 78, 71, 13, 10, 26, 10];

pub open spec fn signature() -> Seq<u8> {
    seq![137u8, 80u8, 78u8, 71u8, 13u8, 10u8, 26u8, 10u8]
}

/// The frames of the chunks, one after another.
pub open spec fn encode_chunks(cs: Seq<ChunkView>) -> Seq<u8>
    decreases cs.len(),
{
    if cs.len() == 0 {
        Seq::empty()
    } else {
        encode_chunks(cs.drop_last()) + frame_of(cs.last())
    }
}

/// The bytes of a document: the signature, then the frames of its chunks.
pub open spec fn encode_png(cs: Seq<ChunkView>) -> Seq<u8> {
    signature() + encode_chunks(cs)
}

/// What decoding a run of frames gives: the chunks in order, or the first
/// error met.
pub open spec fn parse_chunks(b: Seq<u8>) -> Result<Seq<ChunkView>, PngError>
    decreases b.len(),
{
    if b.len() == 0 {
        Ok(Seq::empty())
    } else if b.len() < 12 || b.len() < 12 + declared_len(b) {
        Err(PngError::TrailingDataMismatch)
    } else {
        let n = 12 + declared_len(b);
        match decode_frame(b.subrange(0, n)) {
            Err(e) => Err(PngError::Chunk(e)),
            Ok(c) => match parse_chunks(b.subrange(n, b.len() as int)) {
                Err(e) => Err(e),
                Ok(rest) => Ok(seq![c] + rest),
            },
        }
    }
}

/// What decoding a whole document gives.
pub open spec fn parse_png(b: Seq<u8>) -> Result<Seq<ChunkView>, PngError> {
    if b.len() < 8 || b.subrange(0, 8) != signature() {
        Err(PngError::SignatureMismatch)
    } else {
        parse_chunks(b.subrange(8, b.len() as int))
    }
}

/// `r` with `pre` put before the chunks it holds.
pub open spec fn prepend(pre: Seq<ChunkView>, r: Result<Seq<ChunkView>, PngError>) -> Result<
    Seq<ChunkView>,
    PngError,
> {
    match r {
        Ok(rest) => Ok(pre + rest),
        Err(e) => Err(e),
    }
}

/// Whether the chunk's type reads as `s`.
pub open spec fn has_type(c: ChunkView, s: Seq<char>) -> bool {
    ascii_text(c.0) == s
}

/// `i` is the first position whose chunk has the type `s`.
pub open spec fn is_first_match(cs: Seq<ChunkView>, s: Seq<char>, i: int) -> bool {
    &&& 0 <= i < cs.len()
    &&& has_type(cs[i], s)
    &&& forall|j: int| 0 <= j < i ==> !has_type(#[trigger] cs[j], s)
}

/// No chunk has the type `s`.
pub open spec fn no_match(cs: Seq<ChunkView>, s: Seq<char>) -> bool {
    forall|j: int| 0 <= j < cs.len() ==> !has_type(#[trigger] cs[j], s)
}

pub open spec fn all_valid(cs: Seq<ChunkView>) -> bool {
    forall|i: int| 0 <= i < cs.len() ==> valid_chunk(#[trigger] cs[i])
}

proof fn lemma_encode_first(cs: Seq<ChunkView>)
    requires
        cs.len() > 0,
    ensures
        encode_chunks(cs) == frame_of(cs[0]) + encode_chunks(cs.drop_first()),
    decreases cs.len(),
{
    if cs.len() == 1 {
        assert(cs.drop_last() =~= Seq::<ChunkView>::empty());
        assert(cs.drop_first() =~= Seq::<ChunkView>::empty());
        assert(encode_chunks(cs) =~= frame_of(cs[0]) + encode_chunks(cs.drop_first()));
    } else {
        lemma_encode_first(cs.drop_last());
        assert(cs.drop_last().drop_first() =~= cs.drop_first().drop_last());
        assert(cs.drop_first().last() == cs.last());
        assert(encode_chunks(cs) =~= frame_of(cs[0]) + encode_chunks(cs.drop_first()));
    }
}

proof fn lemma_frame_prefix(c: ChunkView, rest: Seq<u8>)
    requires
        valid_chunk(c),
    ensures
        ({
            let b = frame_of(c) + rest;
            let n = 12 + c.1.len() as int;
            &&& b.len() >= 12
            &&& declared_len(b) == c.1.len()
            &&& b.subrange(0, n) == frame_of(c)
            &&& b.subrange(n, b.len() as int) == rest
        }),
{
    let f = frame_of(c);
    let b = f + rest;
    lemma_be_round_trip(c.1.len() as u32);
    let n = 12 + c.1.len() as int;
    assert(f.len() == n);
    assert(b.subrange(0, 4) =~= f.subrange(0, 4));
    assert(b.subrange(0, n) =~= f);
    assert(b.subrange(n, b.len() as int) =~= rest);
}

proof fn lemma_parse_frame_then(c: ChunkView, rest: Seq<u8>)
    requires
        valid_chunk(c),
    ensures
        parse_chunks(frame_of(c) + rest) == prepend(seq![c], parse_chunks(rest)),
{
    lemma_frame_prefix(c, rest);
    lemma_chunk_round_trip(c);
}

proof fn lemma_chunks_round_trip(cs: Seq<ChunkView>)
    requires
        all_valid(cs),
    ensures
        parse_chunks(encode_chunks(cs)) == Ok::<_, PngError>(cs),
    decreases cs.len(),
{
    if cs.len() == 0 {
        assert(encode_chunks(cs) =~= Seq::<u8>::empty());
        assert(cs =~= Seq::<ChunkView>::empty());
    } else {
        let c = cs[0];
        assert(valid_chunk(c));
        lemma_encode_first(cs);
        lemma_parse_frame_then(c, encode_chunks(cs.drop_first()));
        assert(all_valid(cs.drop_first()));
        lemma_chunks_round_trip(cs.drop_first());
        assert(seq![c] + cs.drop_first() =~= cs);
        assert(parse_chunks(encode_chunks(cs)) == prepend(seq![c], Ok::<_, PngError>(cs.drop_first())));
    }
}

/// Decoding the bytes of a document of valid chunks gives back the same
/// chunks, in the same order.
pub proof fn lemma_png_round_trip(cs: Seq<ChunkView>)
    requires
        all_valid(cs),
    ensures
        parse_png(encode_png(cs)) == Ok::<_, PngError>(cs),
{
    let b = encode_png(cs);
    assert(b.subrange(0, 8) =~= signature());
    assert(b.subrange(8, b.len() as int) =~= encode_chunks(cs));
    lemma_chunks_round_trip(cs);
}

/// Bytes that do not open with the signature are refused with
/// `SignatureMismatch`, whatever follows.
pub proof fn lemma_signature_checked(b: Seq<u8>)
    requires
        b.len() < 8 || b.subrange(0, 8) != signature(),
    ensures
        parse_png(b) == Err::<Seq<ChunkView>, _>(PngError::SignatureMismatch),
{
}

/// Once a chunk is appended to a document in which no chunk has its type, a
/// lookup of that type finds the appended chunk and no other.
pub proof fn lemma_append_then_lookup(cs: Seq<ChunkView>, c: ChunkView, s: Seq<char>)
    requires
        no_match(cs, s),
        has_type(c, s),
    ensures
        is_first_match(cs.push(c), s, cs.len() as int),
        forall|i: int| is_first_match(cs.push(c), s, i) ==> i == cs.len(),
        cs.push(c)[cs.len() as int] == c,
{
    assert forall|j: int| 0 <= j < cs.len() implies !has_type(#[trigger] cs.push(c)[j], s) by {
        assert(cs.push(c)[j] == cs[j]);
    }
}

/// Removing the only chunk of a type leaves no chunk of that type: a later
/// lookup of it fails.
pub proof fn lemma_remove_then_lookup(cs: Seq<ChunkView>, s: Seq<char>, i: int)
    requires
        is_first_match(cs, s, i),
        forall|j: int| 0 <= j < cs.len() && j != i ==> !has_type(#[trigger] cs[j], s),
    ensures
        no_match(cs.remove(i), s),
{
    assert forall|j: int| 0 <= j < cs.remove(i).len() implies !has_type(
        #[trigger] cs.remove(i)[j],
        s,
    ) by {
        if j < i {
            assert(cs.remove(i)[j] == cs[j]);
        } else {
            assert(cs.remove(i)[j] == cs[j + 1]);
        }
    }
}

/// Appending a chunk of a type that the document lacks and then removing
/// that type gives back the appended chunk and the document as it was.
pub proof fn lemma_append_then_remove(cs: Seq<ChunkView>, c: ChunkView, s: Seq<char>)
    requires
        no_match(cs, s),
        has_type(c, s),
    ensures
        cs.push(c).remove(cs.len() as int) == cs,
        no_match(cs.push(c).remove(cs.len() as int), s),
{
    assert(cs.push(c).remove(cs.len() as int) =~= cs);
}

/// The texts of the chunks, separated by `", "`.
pub open spec fn chunks_text(cs: Seq<ChunkView>) -> Seq<char>
    decreases cs.len(),
{
    if cs.len() == 0 {
        Seq::empty()
    } else if cs.len() == 1 {
        chunk_text(cs[0])
    } else {
        chunks_text(cs.drop_last()) + ", "@ + chunk_text(cs.last())
    }
}

/// The diagnostic text of a document.
pub open spec fn png_text(cs: Seq<ChunkView>) -> Seq<char> {
    "Png{signature: ok, chunks: ["@ + chunks_text(cs) + "]}"@
}

/// A document: the signature and an ordered sequence of chunks.
#[derive(Debug)]
pub struct Png {
    chunks: Vec<Chunk>,
}

impl View for Png {
    type V = Seq<ChunkView>;

    closed spec fn view(&self) -> Seq<ChunkView> {
        self.chunks@.map_values(|c: Chunk| c@)
    }
}

impl Png {
    pub open spec fn wf(&self) -> bool {
        all_valid(self@)
    }

    /// A document with no chunks.
    pub fn new() -> (r: Png)
        ensures
            r@ == Seq::<ChunkView>::empty(),
            r.wf(),
    {
        let r = Png { chunks: Vec::new() };
        assert(r@ =~= Seq::<ChunkView>::empty());
        r
    }

    /// A document holding `chunks` in the given order.
    pub fn from_chunks(chunks: Vec<Chunk>) -> (r: Png)
        requires
            forall|i: int| 0 <= i < chunks@.len() ==> (#[trigger] chunks@[i]).wf(),
        ensures
            r@ == chunks@.map_values(|c: Chunk| c@),
            r.wf(),
    {
        Png { chunks }
    }

    pub fn header(&self) -> (r: [u8; 8])
        ensures
            r@ == signature(),
    {
        let r = STANDARD_HEADER;
        assert(r@ =~= signature());
        r
    }

    pub fn chunks(&self) -> (r: &[Chunk])
        ensures
            r@.map_values(|c: Chunk| c@) == self@,
    {
        self.chunks.as_slice()
    }

    /// Adds `chunk` after the last one.
    pub fn append_chunk(&mut self, chunk: Chunk)
        requires
            old(self).wf(),
            chunk.wf(),
        ensures
            final(self)@ == old(self)@.push(chunk@),
            final(self).wf(),
    {
        self.chunks.push(chunk);
        assert(self@ =~= old(self)@.push(chunk@));
    }

    /// The position of the first chunk whose type reads as `chunk_type`.
    fn find(&self, chunk_type: &str) -> (r: Option<usize>)
        requires
            self.wf(),
        ensures
            match r {
                Some(i) => is_first_match(self@, chunk_type@, i as int),
                None => no_match(self@, chunk_type@),
            },
    {
        let wanted = match ChunkType::from_str(chunk_type) {
            Ok(t) => t,
            Err(_) => {
                assert forall|j: int| 0 <= j < self@.len() implies !has_type(
                    #[trigger] self@[j],
                    chunk_type@,
                ) by {
                    lemma_type_text(self@[j].0);
                }
                return None;
            },
        };
        let mut i: usize = 0;
        while i < self.chunks.len()
            invariant
                self.wf(),
                0 <= i <= self@.len(),
                self@.len() == self.chunks@.len(),
                wanted.wf(),
                ascii_text(wanted@) == chunk_type@,
                forall|j: int| 0 <= j < i ==> !has_type(#[trigger] self@[j], chunk_type@),
            decreases self.chunks@.len() - i,
        {
            let found = wanted.same_as(self.chunks[i].chunk_type());
            proof {
                assert(self@[i as int] == self.chunks@[i as int]@);
                assert(valid_chunk(self@[i as int]));
                if has_type(self@[i as int], chunk_type@) {
                    lemma_ascii_text_injective(wanted@, self@[i as int].0);
                }
            }
            if found {
                return Some(i);
            }
            i = i + 1;
        }
        None
    }

    /// The first chunk whose type reads as `chunk_type`.
    pub fn chunk_by_type(&self, chunk_type: &str) -> (r: Result<&Chunk, PngError>)
        requires
            self.wf(),
        ensures
            match r {
                Ok(c) => exists|i: int| is_first_match(self@, chunk_type@, i) && c@ == self@[i],
                Err(e) => e == PngError::ChunkNotFound && no_match(self@, chunk_type@),
            },
    {
        match self.find(chunk_type) {
            Some(i) => {
                assert(self@[i as int] == self.chunks@[i as int]@);
                Ok(&self.chunks[i])
            },
            None => Err(PngError::ChunkNotFound),
        }
    }

    /// Takes out the first chunk whose type reads as `chunk_type`; the others
    /// keep their order.
    pub fn remove_chunk(&mut self, chunk_type: &str) -> (r: Result<Chunk, PngError>)
        requires
            old(self).wf(),
        ensures
            final(self).wf(),
            match r {
                Ok(c) => exists|i: int|
                    is_first_match(old(self)@, chunk_type@, i) && c@ == old(self)@[i]
                        && final(self)@ == old(self)@.remove(i),
                Err(e) => e == PngError::ChunkNotFound && no_match(old(self)@, chunk_type@)
                    && final(self)@ == old(self)@,
            },
    {
        match self.find(chunk_type) {
            Some(i) => {
                let c = self.chunks.remove(i);
                assert(self@ =~= old(self)@.remove(i as int));
                assert(c@ == old(self)@[i as int]);
                Ok(c)
            },
            None => Err(PngError::ChunkNotFound),
        }
    }

    /// Decodes a whole document: the signature, then frames one after
    /// another until the bytes are used up exactly.
    pub fn try_from(bytes: &[u8]) -> (r: Result<Png, PngError>)
        ensures
            match r {
                Ok(p) => parse_png(bytes@) == Ok::<_, PngError>(p@) && p.wf(),
                Err(e) => parse_png(bytes@) == Err::<Seq<ChunkView>, _>(e),
            },
    {
        let len = bytes.len();
        if len < 8 {
            return Err(PngError::SignatureMismatch);
        }
        let mut k: usize = 0;
        while k < 8
            invariant
                0 <= k <= 8,
                8 <= len == bytes@.len(),
                forall|j: int| 0 <= j < k ==> bytes@[j] == #[trigger] signature()[j],
            decreases 8 - k,
        {
            if bytes[k] != STANDARD_HEADER[k] {
                assert(bytes@.subrange(0, 8)[k as int] != signature()[k as int]);
                return Err(PngError::SignatureMismatch);
            }
            k = k + 1;
        }
        assert(bytes@.subrange(0, 8) =~= signature());
        let mut chunks: Vec<Chunk> = Vec::new();
        let mut pos: usize = 8;
        assert(chunks@.map_values(|c: Chunk| c@) + Seq::<ChunkView>::empty() =~= Seq::<ChunkView>::empty());
        while pos < len
            invariant
                8 <= pos <= len,
                len == bytes@.len(),
                bytes@.subrange(0, 8) == signature(),
                forall|i: int| 0 <= i < chunks@.len() ==> (#[trigger] chunks@[i]).wf(),
                parse_chunks(bytes@.subrange(8, len as int)) == prepend(
                    chunks@.map_values(|c: Chunk| c@),
                    parse_chunks(bytes@.subrange(pos as int, len as int)),
                ),
            decreases len - pos,
        {
            let ghost b = bytes@.subrange(pos as int, len as int);
            let ghost pre = chunks@.map_values(|c: Chunk| c@);
            let rest = len - pos;
            if rest < 12 {
                return Err(PngError::TrailingDataMismatch);
            }
            let n = read_be(bytes, pos);
            assert(declared_len(b) == n);
            if (rest as u64) < 12 + n as u64 {
                return Err(PngError::TrailingDataMismatch);
            }
            let end = pos + 12 + n as usize;
            assert(b.subrange(0, 12 + n) =~= bytes@.subrange(pos as int, end as int));
            assert(b.subrange(12 + n, b.len() as int) =~= bytes@.subrange(end as int, len as int));
            match Chunk::try_from(&bytes[pos..end]) {
                Ok(c) => {
                    chunks.push(c);
                    assert(chunks@.map_values(|c: Chunk| c@) =~= pre.push(c@));
                    let ghost tail = parse_chunks(bytes@.subrange(end as int, len as int));
                    assert(prepend(pre, prepend(seq![c@], tail)) == prepend(pre.push(c@), tail)) by {
                        if let Ok(t) = tail {
                            assert(pre + (seq![c@] + t) =~= pre.push(c@) + t);
                        }
                    }
                },
                Err(e) => {
                    return Err(PngError::Chunk(e));
                },
            }
            pos = end;
        }
        let r = Png { chunks };
        assert(bytes@.subrange(pos as int, len as int) =~= Seq::<u8>::empty());
        assert(r@ + Seq::<ChunkView>::empty() =~= r@);
        Ok(r)
    }

    /// A description for people to read: each chunk's text, in order.
    pub fn to_string(&self) -> (r: String)
        requires
            self.wf(),
        ensures
            r@ == png_text(self@),
    {
        let mut body = String::new();
        let mut i: usize = 0;
        while i < self.chunks.len()
            invariant
                self.wf(),
                0 <= i <= self@.len(),
                self@.len() == self.chunks@.len(),
                body@ == chunks_text(self@.subrange(0, i as int)),
            decreases self.chunks@.len() - i,
        {
            proof {
                assert(self@[i as int] == self.chunks@[i as int]@);
                assert(valid_chunk(self@[i as int]));
                let pre = self@.subrange(0, i as int + 1);
                assert(pre.drop_last() =~= self@.subrange(0, i as int));
                assert(pre.last() == self@[i as int]);
                if i == 0 {
                    assert(self@.subrange(0, 0) =~= Seq::<ChunkView>::empty());
                }
            }
            let text = self.chunks[i].to_string();
            if i > 0 {
                body.append(", ");
            }
            body.append(text.as_str());
            i = i + 1;
            assert(body@ =~= chunks_text(self@.subrange(0, i as int)));
        }
        assert(self@.subrange(0, i as int) =~= self@);
        let r = String::from_str("Png{signature: ok, chunks: [");
        let r = r.concat(body.as_str());
        r.concat("]}")
    }

    /// The signature followed by every chunk's frame, in order.
    pub fn as_bytes(&self) -> (r: Vec<u8>)
        requires
            self.wf(),
        ensures
            r@ == encode_png(self@),
    {
        let mut bytes: Vec<u8> = Vec::new();
        let header = self.header();
        push_all(&mut bytes, header.as_slice());
        let mut i: usize = 0;
        while i < self.chunks.len()
            invariant
                self.wf(),
                0 <= i <= self@.len(),
                self@.len() == self.chunks@.len(),
                bytes@ == signature() + encode_chunks(self@.subrange(0, i as int)),
            decreases self.chunks@.len() - i,
        {
            proof {
                assert(self@[i as int] == self.chunks@[i as int]@);
                assert(valid_chunk(self@[i as int]));
            }
            let frame = self.chunks[i].as_bytes();
            proof {
                let pre = self@.subrange(0, i as int + 1);
                assert(pre.drop_last() =~= self@.subrange(0, i as int));
                assert(pre.last() == self@[i as int]);
            }
            push_all(&mut bytes, frame.as_slice());
            i = i + 1;
            assert(bytes@ =~= signature() + encode_chunks(self@.subrange(0, i as int)));
        }
        assert(self@.subrange(0, i as int) =~= self@);
        bytes
    }
}

/// What the conversion returns is stated on the inherent `Png::try_from`.
impl<'a> vstd::std_specs::convert::TryFromSpecImpl<&'a [u8]> for Png {
    open spec fn obeys_try_from_spec() -> bool {
        false
    }

    open spec fn try_from_spec(v: &'a [u8]) -> Result<Png, PngError> {
        arbitrary()
    }
}

impl<'a> TryFrom<&'a [u8]> for Png {
    type Error = PngError;

    fn try_from(bytes: &'a [u8]) -> Result<Png, PngError> {
        Png::try_from(bytes)
    }
}

} // verus!
