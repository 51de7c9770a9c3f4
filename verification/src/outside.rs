//! Calls into other crates: percent-encoding, gzip and UUIDs.
use crate::text::{ascii_digit, content, lowered, lowered_char};
use vstd::prelude::*;
use vstd::utf8::encode_utf8;

verus! {

/// The bytes that percent-encoding leaves as they are.
pub open spec fn unreserved(b: u8) -> bool {
    ||| 48 <= b <= 57
    ||| 65 <= b <= 90
    ||| 97 <= b <= 122
    ||| b == 45
    ||| b == 46
    ||| b == 95
    ||| b == 126
}

/// The upper-case hexadecimal digit of a value below 16.
pub open spec fn hex_digit(d: int) -> char {
    if d < 10 {
        (48 + d) as char
    } else {
        (55 + d) as char
    }
}

/// How a byte is percent-encoded.
pub open spec fn encoded_byte(b: u8) -> Seq<char> {
    if unreserved(b) {
        seq![b as char]
    } else {
        seq!['%', hex_digit(b as int / 16), hex_digit(b as int % 16)]
    }
}

/// How bytes are percent-encoded.
pub open spec fn encoded_bytes(bytes: Seq<u8>) -> Seq<char>
    decreases bytes.len(),
{
    if bytes.len() == 0 {
        Seq::empty()
    } else {
        encoded_bytes(bytes.drop_last()) + encoded_byte(bytes.last())
    }
}

/// How a text is percent-encoded: byte by byte of its UTF-8 form.
pub open spec fn percent_encoded(s: Seq<char>) -> Seq<char> {
    encoded_bytes(encode_utf8(s))
}

/// `urlencoding::encode` percent-encodes every byte of the UTF-8 form of `s` except letters,
/// digits, `-`, `_`, `.` and `~`, with upper-case digits.
#[verifier::external_body]
pub(crate) fn percent_encode(s: &str) -> (r: String)
    ensures
        r@ == percent_encoded(s@),
{
    urlencoding::encode(s).into_owned()
}

/// A character that may stand in a percent-encoded text.
pub open spec fn url_safe(c: char) -> bool {
    ||| '0' <= c && c <= '9'
    ||| 'A' <= c && c <= 'Z'
    ||| 'a' <= c && c <= 'z'
    ||| c == '-'
    ||| c == '.'
    ||| c == '_'
    ||| c == '~'
    ||| c == '%'
}

/// A percent-encoded text holds nothing that has a meaning in a URL: no slash, no question mark,
/// no number sign.
pub proof fn law_percent_encoded_is_url_safe(s: Seq<char>)
    ensures
        forall|i: int| 0 <= i < percent_encoded(s).len() ==> url_safe(#[trigger] percent_encoded(s)[i]),
{
    lemma_encoded_bytes_are_url_safe(encode_utf8(s));
}

proof fn lemma_encoded_bytes_are_url_safe(bytes: Seq<u8>)
    ensures
        forall|i: int| 0 <= i < encoded_bytes(bytes).len() ==> url_safe(
            #[trigger] encoded_bytes(bytes)[i],
        ),
    decreases bytes.len(),
{
    if bytes.len() > 0 {
        let before = encoded_bytes(bytes.drop_last());
        let b = bytes.last();
        lemma_encoded_bytes_are_url_safe(bytes.drop_last());
        assert forall|i: int| 0 <= i < encoded_bytes(bytes).len() implies url_safe(
            #[trigger] encoded_bytes(bytes)[i],
        ) by {
            if i < before.len() {
                assert(encoded_bytes(bytes)[i] == before[i]);
            } else {
                assert(encoded_bytes(bytes)[i] == encoded_byte(b)[i - before.len()]);
            }
        }
    }
}

/// What a gzip stream unpacks to, or the message of the error where it is corrupt.
pub uninterp spec fn gunzipped(bytes: Seq<u8>) -> Result<Seq<u8>, Seq<char>>;

/// `flate2::read::GzDecoder`, read to its end, unpacks the first member of the gzip stream
/// `bytes`. The result depends on `bytes` alone; what it is, is left to `flate2`.
#[verifier::external_body]
pub(crate) fn gunzip(bytes: &[u8]) -> (r: Result<Vec<u8>, String>)
    ensures
        match r {
            Ok(unpacked) => gunzipped(bytes@) == Ok::<Seq<u8>, Seq<char>>(unpacked@),
            Err(message) => gunzipped(bytes@) == Err::<Seq<u8>, Seq<char>>(message@),
        },
{
    let mut output = Vec::new();
    let mut decoder = flate2::read::GzDecoder::new(bytes);
    match std::io::Read::read_to_end(&mut decoder, &mut output) {
        Ok(_) => Ok(output),
        Err(e) => Err(e.to_string()),
    }
}

pub open spec fn hex_char(c: char) -> bool {
    ascii_digit(c) || ('a' <= c && c <= 'f') || ('A' <= c && c <= 'F')
}

/// The places of the hyphens in a hyphenated UUID.
pub open spec fn hyphen_place(i: int) -> bool {
    i == 8 || i == 13 || i == 18 || i == 23
}

/// A hyphenated UUID: groups of 8, 4, 4, 4 and 12 hexadecimal digits.
pub open spec fn hyphenated(s: Seq<char>) -> bool {
    s.len() == 36 && forall|i: int| #![trigger s[i]]
        0 <= i < 36 ==> if hyphen_place(i) {
            s[i] == '-'
        } else {
            hex_char(s[i])
        }
}

/// 32 hexadecimal digits with hyphens put between their groups.
pub open spec fn with_hyphens(s: Seq<char>) -> Seq<char> {
    s.subrange(0, 8) + seq!['-'] + s.subrange(8, 12) + seq!['-'] + s.subrange(12, 16) + seq!['-']
        + s.subrange(16, 20) + seq!['-'] + s.subrange(20, 32)
}

/// The hyphenated lower-case form of a UUID, which may be written without hyphens, with them,
/// in braces, or as a URN.
pub open spec fn uuid_form(s: Seq<char>) -> Option<Seq<char>> {
    if s.len() == 32 && forall|i: int| 0 <= i < 32 ==> hex_char(#[trigger] s[i]) {
        Some(lowered(with_hyphens(s)))
    } else if hyphenated(s) {
        Some(lowered(s))
    } else if s.len() == 38 && s[0] == '{' && s[37] == '}' && hyphenated(s.subrange(1, 37)) {
        Some(lowered(s.subrange(1, 37)))
    } else if s.len() == 45 && lowered(s.take(9)) == "urn:uuid:"@ && hyphenated(s.skip(9)) {
        Some(lowered(s.skip(9)))
    } else {
        None
    }
}

/// `uuid::Uuid::parse_str` takes the simple, hyphenated, braced and URN forms of a UUID;
/// `Uuid` is shown in its hyphenated lower-case form.
#[verifier::external_body]
pub(crate) fn parse_uuid(s: &str) -> (r: Option<String>)
    ensures
        content(r) == uuid_form(s@),
{
    uuid::Uuid::parse_str(s).ok().map(|id| id.to_string())
}

/// A random UUID: the digits of its version and its variant are fixed.
pub open spec fn random_uuid(id: Seq<char>) -> bool {
    &&& uuid_form(id) == Some(id)
    &&& id[14] == '4'
    &&& id[19] == '8' || id[19] == '9' || id[19] == 'a' || id[19] == 'b'
}

/// `uuid::Uuid::new_v4` draws a random UUID of version 4 and of the variant of RFC 9562; `Uuid`
/// is shown in its hyphenated lower-case form. The other digits are left to chance. The call
/// panics where the operating system has no source of random numbers.
#[verifier::external_body]
pub(crate) fn draw_uuid() -> (r: String)
    ensures
        random_uuid(r@),
{
    uuid::Uuid::new_v4().to_string()
}

/// The form of a UUID is hyphenated, and holds no upper-case letters.
proof fn lemma_uuid_form_is_hyphenated(s: Seq<char>)
    ensures
        uuid_form(s) matches Some(id) ==> hyphenated(id) && lowered(id) == id,
{
    if let Some(id) = uuid_form(s) {
        let spelled = if s.len() == 32 {
            with_hyphens(s)
        } else if s.len() == 36 {
            s
        } else if s.len() == 38 {
            s.subrange(1, 37)
        } else {
            s.skip(9)
        };
        assert(id == lowered(spelled));
        assert(hyphenated(spelled));
        assert forall|i: int| #![trigger id[i]] 0 <= i < 36 implies (if hyphen_place(i) {
            id[i] == '-'
        } else {
            hex_char(id[i])
        }) && lowered_char(id[i]) == id[i] by {
            assert(id[i] == lowered_char(spelled[i]));
        }
        assert(lowered(id) =~= id);
    }
}

/// The form of a UUID is made of 36 lower-case hexadecimal digits and hyphens.
pub proof fn lemma_uuid_form(s: Seq<char>)
    ensures
        uuid_form(s) matches Some(id) ==> {
            &&& id.len() == 36
            &&& forall|i: int| 0 <= i < 36 ==> ascii_digit(#[trigger] id[i]) || ('a' <= id[i] && id[i]
                <= 'f') || id[i] == '-'
        },
{
    lemma_uuid_form_is_hyphenated(s);
    if let Some(id) = uuid_form(s) {
        assert forall|i: int| 0 <= i < 36 implies ascii_digit(#[trigger] id[i]) || ('a' <= id[i]
            && id[i] <= 'f') || id[i] == '-' by {
            assert(lowered(id)[i] == lowered_char(id[i]));
        }
    }
}

/// The form of a UUID is its own form.
pub proof fn lemma_uuid_form_of_form(s: Seq<char>)
    ensures
        uuid_form(s) matches Some(id) ==> uuid_form(id) == Some(id),
{
    lemma_uuid_form_is_hyphenated(s);
}

} // verus!
