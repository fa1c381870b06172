//! Universally unique ids, by the `uuid` crate.
use crate::digest::hex_text;
use vstd::prelude::*;
use vstd::string::*;

verus! {

/// A universally unique id.
#[derive(Debug, Clone, Copy, PartialEq, Eq)]
pub struct Uuid {
    pub bytes: [u8; 16],
}

/// The name-based id (version 5) of a name in a namespace.
pub uninterp spec fn uuid_v5(namespace: Seq<u8>, name: Seq<u8>) -> Seq<u8>;

/// The id that a text stands for, or what is said of it where it stands for none.
pub uninterp spec fn uuid_parsed(text: Seq<char>) -> Result<Seq<u8>, Seq<char>>;

/// The id in hexadecimal with hyphens: groups of 8, 4, 4, 4 and 12 digits.
pub open spec fn hyphenated_text(bytes: Seq<u8>) -> Seq<char> {
    let h = hex_text(bytes);
    h.subrange(0, 8) + "-"@ + h.subrange(8, 12) + "-"@ + h.subrange(12, 16) + "-"@ + h.subrange(
        16,
        20,
    ) + "-"@ + h.subrange(20, 32)
}

/// Calls `Uuid::new_v5`. The result is named [`uuid_v5`]; nothing more is said of
/// it.
#[verifier::external_body]
pub(crate) fn new_v5(namespace: &[u8; 16], name: &[u8]) -> (r: [u8; 16])
    ensures
        r@ == uuid_v5(namespace@, name@),
{
    uuid::Uuid::new_v5(&uuid::Uuid::from_bytes(*namespace), name).into_bytes()
}

/// Calls `Uuid::parse_str` and writes its error. The result is named
/// [`uuid_parsed`]; nothing more is said of it.
#[verifier::external_body]
pub(crate) fn parse_uuid_text(text: &str) -> (r: Result<[u8; 16], String>)
    ensures
        match r {
            Ok(b) => uuid_parsed(text@) is Ok && uuid_parsed(text@)->Ok_0 == b@,
            Err(e) => uuid_parsed(text@) is Err && uuid_parsed(text@)->Err_0 == e@,
        },
{
    match uuid::Uuid::parse_str(text) {
        Ok(u) => Ok(u.into_bytes()),
        Err(e) => Err(e.to_string()),
    }
}

/// Calls `Uuid::hyphenated` and writes the result: small hexadecimal digits in
/// groups of 8, 4, 4, 4 and 12. Parsing that text gives the id back.
#[verifier::external_body]
pub(crate) fn format_hyphenated(bytes: &[u8; 16]) -> (r: String)
    ensures
        r@ == hyphenated_text(bytes@),
        uuid_parsed(r@) is Ok && uuid_parsed(r@)->Ok_0 == bytes@,
{
    uuid::Uuid::from_bytes(*bytes).hyphenated().to_string()
}

/// Calls `Uuid::simple` and writes the result: 32 small hexadecimal digits.
#[verifier::external_body]
pub(crate) fn format_simple(bytes: &[u8; 16]) -> (r: String)
    ensures
        r@ == hex_text(bytes@),
{
    uuid::Uuid::from_bytes(*bytes).simple().to_string()
}

/// The id whose bytes are all zero.
pub open spec fn is_nil(bytes: Seq<u8>) -> bool {
    forall|i: int| 0 <= i < bytes.len() ==> #[trigger] bytes[i] == 0
}

impl Uuid {
    /// The id with hyphens.
    pub fn hyphenated(&self) -> (r: String)
        ensures
            r@ == hyphenated_text(self.bytes@),
            uuid_parsed(r@) is Ok && uuid_parsed(r@)->Ok_0 == self.bytes@,
    {
        format_hyphenated(&self.bytes)
    }

    /// The id without hyphens.
    pub fn simple(&self) -> (r: String)
        ensures
            r@ == hex_text(self.bytes@),
    {
        format_simple(&self.bytes)
    }

    /// Whether all bytes of the id are zero.
    pub fn is_nil(&self) -> (r: bool)
        ensures
            r == is_nil(self.bytes@),
    {
        let mut i: usize = 0;
        while i < 16
            invariant
                i <= 16,
                self.bytes@.len() == 16,
                forall|j: int| 0 <= j < i ==> #[trigger] self.bytes@[j] == 0,
            decreases 16 - i,
        {
            if self.bytes[i] != 0 {
                return false;
            }
            i += 1;
        }
        true
    }
}

/// The id that a text stands for, or what is said of it.
pub fn parse_uuid(text: &str) -> (r: Result<Uuid, String>)
    ensures
        match r {
            Ok(u) => uuid_parsed(text@) is Ok && uuid_parsed(text@)->Ok_0 == u.bytes@,
            Err(e) => uuid_parsed(text@) is Err && uuid_parsed(text@)->Err_0 == e@,
        },
{
    match parse_uuid_text(text) {
        Ok(bytes) => Ok(Uuid { bytes }),
        Err(e) => Err(e),
    }
}

pub open spec fn is_hex_digit(c: char) -> bool {
    ('0' <= c <= '9') || ('a' <= c <= 'f')
}

pub proof fn lemma_hex_text(bytes: Seq<u8>)
    ensures
        hex_text(bytes).len() == 2 * bytes.len(),
        forall|i: int| 0 <= i < hex_text(bytes).len() ==> is_hex_digit(#[trigger] hex_text(bytes)[i]),
    decreases bytes.len(),
{
    if bytes.len() > 0 {
        let d = bytes.drop_last();
        lemma_hex_text(d);
        let r = hex_text(d);
        assert forall|i: int| 0 <= i < hex_text(bytes).len() implies is_hex_digit(
            #[trigger] hex_text(bytes)[i],
        ) by {
            if i < r.len() {
                assert(hex_text(bytes)[i] == r[i]);
            }
        }
    }
}

/// The text of an id has 36 characters, small hexadecimal digits with hyphens at
/// the places 8, 13, 18 and 23.
pub proof fn law_hyphenated_shape(bytes: Seq<u8>)
    requires
        bytes.len() == 16,
    ensures
        hyphenated_text(bytes).len() == 36,
        forall|i: int|
            0 <= i < 36 ==> (if i == 8 || i == 13 || i == 18 || i == 23 {
                #[trigger] hyphenated_text(bytes)[i] == '-'
            } else {
                is_hex_digit(hyphenated_text(bytes)[i])
            }),
{
    reveal_strlit("-");
    lemma_hex_text(bytes);
    let h = hex_text(bytes);
    let t = hyphenated_text(bytes);
    assert(t.len() == 36);
    assert forall|i: int| 0 <= i < 36 implies (if i == 8 || i == 13 || i == 18 || i == 23 {
        #[trigger] t[i] == '-'
    } else {
        is_hex_digit(t[i])
    }) by {
        if i < 8 {
            assert(t[i] == h[i]);
        } else if 8 < i < 13 {
            assert(t[i] == h[i - 1]);
        } else if 13 < i < 18 {
            assert(t[i] == h[i - 2]);
        } else if 18 < i < 23 {
            assert(t[i] == h[i - 3]);
        } else if i > 23 {
            assert(t[i] == h[i - 4]);
        }
    }
}

/// Without its hyphens the text of an id is its bytes in hexadecimal.
pub proof fn law_hyphens_are_all_that_is_added(bytes: Seq<u8>, i: int)
    requires
        bytes.len() == 16,
        0 <= i < 32,
    ensures
        ({
            let t = hyphenated_text(bytes);
            let h = hex_text(bytes);
            &&& i < 8 ==> t[i] == h[i]
            &&& 8 <= i < 12 ==> t[i + 1] == h[i]
            &&& 12 <= i < 16 ==> t[i + 2] == h[i]
            &&& 16 <= i < 20 ==> t[i + 3] == h[i]
            &&& 20 <= i ==> t[i + 4] == h[i]
        }),
{
    reveal_strlit("-");
    lemma_hex_text(bytes);
}

/// An id is nil where it has no byte but zeros.
pub proof fn law_one_byte_makes_an_id(bytes: Seq<u8>, i: int)
    requires
        0 <= i < bytes.len(),
        bytes[i] != 0,
    ensures
        !is_nil(bytes),
        is_nil(Seq::new(bytes.len(), |k: int| 0u8)),
{
}

} // verus!
