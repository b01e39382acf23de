use vstd::prelude::*;

verus! {

/// Error returned when a candidate type code is not four ASCII letters.
#[derive(Debug, Clone, Copy, PartialEq, Eq, Structural)]
pub enum ChunkTypeError {
    ExpectAsciiBytes,
}

/// `A`-`Z`.
pub open spec fn is_upper(b: u8) -> bool {
    65 <= b <= 90
}

/// `a`-`z`.
pub open spec fn is_lower(b: u8) -> bool {
    97 <= b <= 122
}

pub open spec fn is_letter(b: u8) -> bool {
    is_upper(b) || is_lower(b)
}

/// Four ASCII letters.
pub open spec fn is_type_code(t: Seq<u8>) -> bool {
    &&& t.len() == 4
    &&& forall|i: int| 0 <= i < 4 ==> is_letter(#[trigger] t[i])
}

/// The text of a code made of ASCII bytes: one character per byte.
pub open spec fn ascii_text(t: Seq<u8>) -> Seq<char> {
    t.map_values(|b: u8| b as char)
}

/// An ASCII letter as a character.
pub open spec fn is_ascii_letter(c: char) -> bool {
    (c as u32) < 128 && is_letter((c as u32) as u8)
}

/// Whether `s` is the text of a four-letter code.
pub open spec fn is_type_text(s: Seq<char>) -> bool {
    &&& s.len() == 4
    &&& forall|i: int| 0 <= i < 4 ==> is_ascii_letter(#[trigger] s[i])
}

/// Text read from bytes as UTF-8, each invalid sequence replaced.
pub uninterp spec fn utf8_lossy(bytes: Seq<u8>) -> Seq<char>;

pub open spec fn is_ascii_bytes(b: Seq<u8>) -> bool {
    forall|i: int| 0 <= i < b.len() ==> #[trigger] b[i] < 128
}

/// Relies on String::from_utf8_lossy: the bytes read as UTF-8 with each
/// invalid sequence replaced; ASCII bytes, being valid UTF-8, come out one
/// character each.
#[verifier::external_body]
pub(crate) fn lossy_string(bytes: &[u8]) -> (r: String)
    ensures
        r@ == utf8_lossy(bytes@),
        is_ascii_bytes(bytes@) ==> r@ == ascii_text(bytes@),
{
    String::from_utf8_lossy(bytes).into_owned()
}

/// The four bytes of a chunk's type, each an ASCII letter.
#[derive(Debug, Clone, Copy)]
pub struct ChunkType {
    bytes: [u8; 4],
}

impl View for ChunkType {
    type V = Seq<u8>;

    closed spec fn view(&self) -> Seq<u8> {
        self.bytes@
    }
}

/// The text of a four-letter code is four ASCII letters.
pub proof fn lemma_type_text(t: Seq<u8>)
    requires
        is_type_code(t),
    ensures
        is_type_text(ascii_text(t)),
{
    assert forall|i: int| 0 <= i < 4 implies is_ascii_letter(#[trigger] ascii_text(t)[i]) by {
        let c = ascii_text(t)[i];
        assert(c == t[i] as char);
        assert((c as u32) == t[i] as u32);
    }
}

/// Two byte codes with the same text are the same code.
pub proof fn lemma_ascii_text_injective(a: Seq<u8>, b: Seq<u8>)
    requires
        a.len() == b.len(),
        ascii_text(a) == ascii_text(b),
    ensures
        a == b,
{
    assert forall|i: int| 0 <= i < a.len() implies a[i] == b[i] by {
        assert(ascii_text(a)[i] == ascii_text(b)[i]);
        assert(ascii_text(a)[i] == a[i] as char);
        assert(ascii_text(b)[i] == b[i] as char);
        assert((a[i] as char) as u32 == a[i] as u32);
        assert((b[i] as char) as u32 == b[i] as u32);
    }
    assert(a =~= b);
}

proof fn lemma_ascii_round_trip(c: char, b: u8)
    requires
        (c as u32) < 128,
        b == (c as u32) as u8,
    ensures
        b as char == c,
{
    assert(b as u32 == c as u32);
    assert((b as char) as u32 == b as u32);
}

fn letter(b: u8) -> (r: bool)
    ensures
        r == is_letter(b),
{
    (65 <= b && b <= 90) || (97 <= b && b <= 122)
}

impl ChunkType {
    /// Four ASCII letters.
    pub open spec fn wf(&self) -> bool {
        is_type_code(self@)
    }

    /// Accepts the bytes when all four are ASCII letters.
    pub fn try_from(value: [u8; 4]) -> (r: Result<ChunkType, ChunkTypeError>)
        ensures
            is_type_code(value@) <==> r is Ok,
            r matches Ok(t) ==> t@ == value@ && t.wf(),
            r matches Err(e) ==> e == ChunkTypeError::ExpectAsciiBytes,
    {
        let mut i: usize = 0;
        while i < 4
            invariant
                0 <= i <= 4,
                value@.len() == 4,
                forall|j: int| 0 <= j < i ==> is_letter(#[trigger] value@[j]),
            decreases 4 - i,
        {
            if !letter(value[i]) {
                return Err(ChunkTypeError::ExpectAsciiBytes);
            }
            i = i + 1;
        }
        Ok(ChunkType { bytes: value })
    }

    /// Accepts a string of exactly four ASCII letters.
    pub fn from_str(s: &str) -> (r: Result<ChunkType, ChunkTypeError>)
        ensures
            is_type_text(s@) <==> r is Ok,
            r matches Ok(t) ==> t.wf() && ascii_text(t@) == s@,
            r matches Err(e) ==> e == ChunkTypeError::ExpectAsciiBytes,
    {
        if s.unicode_len() != 4 {
            return Err(ChunkTypeError::ExpectAsciiBytes);
        }
        let mut bytes: [u8; 4] = [0u8; 4];
        let mut i: usize = 0;
        while i < 4
            invariant
                0 <= i <= 4,
                s@.len() == 4,
                bytes@.len() == 4,
                forall|j: int| 0 <= j < i ==> is_ascii_letter(#[trigger] s@[j]),
                forall|j: int| 0 <= j < i ==> #[trigger] bytes@[j] == (s@[j] as u32) as u8,
            decreases 4 - i,
        {
            let c = s.get_char(i);
            let code = c as u32;
            if code >= 128 || !letter(code as u8) {
                return Err(ChunkTypeError::ExpectAsciiBytes);
            }
            bytes[i] = code as u8;
            i = i + 1;
        }
        let t = ChunkType { bytes };
        assert forall|j: int| 0 <= j < 4 implies (ascii_text(t@)[j] == s@[j]) by {
            let c = s@[j];
            assert(is_ascii_letter(c));
            let b = (c as u32) as u8;
            lemma_ascii_round_trip(c, b);
            assert(t@[j] == b);
            assert(ascii_text(t@)[j] == t@[j] as char);
        }
        assert(ascii_text(t@) =~= s@);
        Ok(t)
    }

    pub fn bytes(&self) -> (r: [u8; 4])
        ensures
            r@ == self@,
    {
        self.bytes
    }

    /// The code as text.
    pub fn to_string(&self) -> (r: String)
        requires
            self.wf(),
        ensures
            r@ == ascii_text(self@),
    {
        let r = lossy_string(self.bytes.as_slice());
        assert(is_ascii_bytes(self@));
        r
    }

    /// Critical: the first byte is upper case.
    pub fn is_critical(&self) -> (r: bool)
        requires
            self.wf(),
        ensures
            r == is_upper(self@[0]),
    {
        is_upper_byte(self.bytes[0])
    }

    /// Public: the second byte is upper case.
    pub fn is_public(&self) -> (r: bool)
        requires
            self.wf(),
        ensures
            r == is_upper(self@[1]),
    {
        is_upper_byte(self.bytes[1])
    }

    /// Reserved bit valid: the third byte is upper case.
    pub fn is_reserved_bit_valid(&self) -> (r: bool)
        requires
            self.wf(),
        ensures
            r == is_upper(self@[2]),
    {
        is_upper_byte(self.bytes[2])
    }

    /// Safe to copy: the fourth byte is lower case.
    pub fn is_safe_to_copy(&self) -> (r: bool)
        requires
            self.wf(),
        ensures
            r == is_lower(self@[3]),
    {
        let b = self.bytes[3];
        97 <= b && b <= 122
    }

    /// Valid exactly when the reserved bit is.
    pub fn is_valid(&self) -> (r: bool)
        requires
            self.wf(),
        ensures
            r == is_upper(self@[2]),
    {
        self.is_reserved_bit_valid()
    }

    /// Byte-wise equality.
    pub fn same_as(&self, other: &ChunkType) -> (r: bool)
        ensures
            r == (self@ == other@),
    {
        let r = self.bytes[0] == other.bytes[0] && self.bytes[1] == other.bytes[1]
            && self.bytes[2] == other.bytes[2] && self.bytes[3] == other.bytes[3];
        proof {
            if r {
                assert(self@ =~= other@);
            }
        }
        r
    }
}

fn is_upper_byte(b: u8) -> (r: bool)
    ensures
        r == is_upper(b),
{
    65 <= b && b <= 90
}

impl PartialEq for ChunkType {
    fn eq(&self, other: &ChunkType) -> (r: bool) {
        self.same_as(other)
    }
}

impl vstd::std_specs::cmp::PartialEqSpecImpl for ChunkType {
    open spec fn obeys_eq_spec() -> bool {
        true
    }

    open spec fn eq_spec(&self, other: &ChunkType) -> bool {
        self@ == other@
    }
}

impl Eq for ChunkType {

}

/// What the conversion returns is stated on the inherent `ChunkType::try_from`.
impl vstd::std_specs::convert::TryFromSpecImpl<[u8; 4]> for ChunkType {
    open spec fn obeys_try_from_spec() -> bool {
        false
    }

    open spec fn try_from_spec(v: [u8; 4]) -> Result<ChunkType, ChunkTypeError> {
        arbitrary()
    }
}

impl TryFrom<[u8; 4]> for ChunkType {
    type Error = ChunkTypeError;

    fn try_from(value: [u8; 4]) -> Result<ChunkType, ChunkTypeError> {
        ChunkType::try_from(value)
    }
}

impl core::str::FromStr for ChunkType {
    type Err = ChunkTypeError;

    fn from_str(s: &str) -> Result<ChunkType, ChunkTypeError> {
        ChunkType::from_str(s)
    }
}

} // verus!
