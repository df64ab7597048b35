//! Signatures: HMAC-SHA1 over the canonicalized query, in base64.

use crate::calendar::timestamp_text;
use crate::clock::{aliyun_timestamp, reading_timestamp, since_epoch, whole_seconds};
use crate::credentials::Credentials;
use crate::encoding::{
    aliyun_percent_encode, law_percent_encoding_is_injective, law_percent_encoding_is_read_back,
    percent_encoded,
};
use crate::error::ToolError;
use crate::params::Params;
use crate::query::{canonicalized_query, law_query_identifies_params, query_text};
use crate::reading::{
    base64_decoded, base64_value, lemma_utf8_of_ampersand, percent_decoded,
};
use base64::Engine;
use hmac::Mac;
use std::time::{SystemTime, SystemTimeError};
use vstd::prelude::*;
use vstd::utf8::encode_utf8;

verus! {

/// The version of the API.
pub const API_VERSION: &'static str = "2018-05-10";

/// `hmac::digest::InvalidLength`, the error of a key of the wrong length.
#[verifier::external_type_specification]
#[verifier::external_body]
pub struct ExInvalidLength(hmac::digest::InvalidLength);

/// The HMAC-SHA1 code of a message under a key.
pub uninterp spec fn hmac_sha1_code(key: Seq<u8>, message: Seq<u8>) -> Seq<u8>;

/// `Hmac::<Sha1>`, set up with `new_from_slice`, fed with `update` and read with
/// `finalize`. It takes keys of every length, and its code rests on the key and
/// the message alone.
#[verifier::external_body]
fn hmac_sha1(key: &[u8], message: &[u8]) -> (code: Result<[u8; 20], hmac::digest::InvalidLength>)
    ensures
        code is Ok,
        code->Ok_0@ == hmac_sha1_code(key@, message@),
{
    let mut mac = hmac::Hmac::<sha1::Sha1>::new_from_slice(key)?;
    mac.update(message);
    Ok(mac.finalize().into_bytes().into())
}

/// The base64 digit of a number below 64.
pub open spec fn base64_digit(n: int) -> char {
    if n < 26 {
        (65 + n) as char
    } else if n < 52 {
        (71 + n) as char
    } else if n < 62 {
        (n - 4) as char
    } else if n == 62 {
        '+'
    } else {
        '/'
    }
}

/// Bytes in base64: four digits for three bytes, `=` for what is missing at
/// the end.
pub open spec fn base64_text(bytes: Seq<u8>) -> Seq<char>
    decreases bytes.len(),
{
    if bytes.len() == 0 {
        Seq::empty()
    } else if bytes.len() == 1 {
        seq![base64_digit((bytes[0] / 4) as int), base64_digit(bytes[0] % 4 * 16), '=', '=']
    } else if bytes.len() == 2 {
        seq![
            base64_digit((bytes[0] / 4) as int),
            base64_digit(bytes[0] % 4 * 16 + bytes[1] / 16),
            base64_digit(bytes[1] % 16 * 4),
            '=',
        ]
    } else {
        seq![
            base64_digit((bytes[0] / 4) as int),
            base64_digit(bytes[0] % 4 * 16 + bytes[1] / 16),
            base64_digit(bytes[1] % 16 * 4 + bytes[2] / 64),
            base64_digit((bytes[2] % 64) as int),
        ] + base64_text(bytes.skip(3))
    }
}

/// `general_purpose::STANDARD.encode`: base64 with the standard alphabet and
/// padding. It panics where the length of the text is beyond the limits of
/// memory.
#[verifier::external_body]
fn base64_encode(bytes: &[u8]) -> (text: String)
    requires
        (bytes@.len() + 2) / 3 * 4 <= isize::MAX,
    ensures
        text@ == base64_text(bytes@),
{
    base64::engine::general_purpose::STANDARD.encode(bytes)
}

/// Whether a text is a random UUID: 32 lower case hexadecimal digits in five
/// groups, the version `4` and the variant in their places.
pub open spec fn is_nonce(text: Seq<char>) -> bool {
    &&& text.len() == 36
    &&& forall|i: int|
        0 <= i < 36 ==> if i == 8 || i == 13 || i == 18 || i == 23 {
            #[trigger] text[i] == '-'
        } else {
            '0' <= text[i] <= '9' || 'a' <= text[i] <= 'f'
        }
    &&& text[14] == '4'
    &&& text[19] == '8' || text[19] == '9' || text[19] == 'a' || text[19] == 'b'
}

/// `Uuid::new_v4`, written out. Which UUID comes is left to chance. It panics
/// where the system has no random numbers to give.
#[verifier::external_body]
fn new_nonce() -> (nonce: String)
    ensures
        is_nonce(nonce@),
{
    uuid::Uuid::new_v4().to_string()
}

/// The signature of a text under the secret of an access key.
pub open spec fn signature_text(string_to_sign: Seq<char>, access_key_secret: Seq<char>) -> Seq<
    char,
> {
    base64_text(
        hmac_sha1_code(
            encode_utf8(access_key_secret + seq!['&']),
            encode_utf8(string_to_sign),
        ),
    )
}

/// Whether a character is a base64 digit.
pub open spec fn is_base64_digit(c: char) -> bool {
    'A' <= c <= 'Z' || 'a' <= c <= 'z' || '0' <= c <= '9' || c == '+' || c == '/'
}

/// Whether a text has the form of a signature: 27 base64 digits and one `=`.
pub open spec fn is_signature(text: Seq<char>) -> bool {
    &&& text.len() == 28
    &&& forall|i: int| 0 <= i < 27 ==> is_base64_digit(#[trigger] text[i])
    &&& text[27] == '='
}

/// Where two bytes are left at the end, the text ends with one `=`, and all
/// else are digits, four for three bytes.
proof fn lemma_base64_with_two_left(bytes: Seq<u8>)
    requires
        bytes.len() % 3 == 2,
    ensures
        base64_text(bytes).len() == (bytes.len() + 1) / 3 * 4,
        forall|i: int|
            0 <= i < base64_text(bytes).len() - 1 ==> is_base64_digit(
                #[trigger] base64_text(bytes)[i],
            ),
        base64_text(bytes).last() == '=',
    decreases bytes.len(),
{
    if bytes.len() > 2 {
        let rest = base64_text(bytes.skip(3));
        lemma_base64_with_two_left(bytes.skip(3));
        assert forall|i: int| 0 <= i < base64_text(bytes).len() - 1 implies is_base64_digit(
            #[trigger] base64_text(bytes)[i],
        ) by {
            if i >= 4 {
                assert(base64_text(bytes)[i] == rest[i - 4]);
            }
        }
    }
}

/// A digit stands for the number that it was made of.
proof fn lemma_base64_digit_is_read_back(n: int)
    requires
        0 <= n < 64,
    ensures
        base64_value(base64_digit(n)) == n,
        base64_digit(n) != '=',
{
}

/// Four digits are the three bytes that they were made of.
proof fn lemma_base64_bits(a: u8, b: u8, c: u8)
    ensures
        ({
            let bits = (a / 4) * 262_144 + (a % 4 * 16 + b / 16) * 4_096 + (b % 16 * 4 + c / 64)
                * 64 + c % 64;
            &&& bits / 65_536 == a
            &&& bits / 256 % 256 == b
            &&& bits % 256 == c
        }),
{
    let bits = (a / 4) * 262_144 + (a % 4 * 16 + b / 16) * 4_096 + (b % 16 * 4 + c / 64) * 64 + c
        % 64;
    let high = a * 256 + b;
    assert(a == 4 * (a / 4) + a % 4);
    assert(b == 16 * (b / 16) + b % 16);
    assert(c == 64 * (c / 64) + c % 64);
    assert(bits == a * 65_536 + b * 256 + c);
    vstd::arithmetic::div_mod::lemma_fundamental_div_mod_converse(
        bits,
        65_536,
        a as int,
        b * 256 + c,
    );
    vstd::arithmetic::div_mod::lemma_fundamental_div_mod_converse(bits, 256, high, c as int);
    vstd::arithmetic::div_mod::lemma_fundamental_div_mod_converse(high, 256, a as int, b as int);
}

/// The four digits of up to three bytes are read as those bytes, before whatever
/// follows three.
proof fn lemma_base64_group(a: u8, b: u8, c: u8, rest: Seq<char>)
    ensures
        ({
            let w = base64_digit((a / 4) as int);
            let x = base64_digit(a % 4 * 16 + b / 16);
            let y = base64_digit(b % 16 * 4 + c / 64);
            let z = base64_digit((c % 64) as int);
            &&& base64_decoded(seq![w, x, y, z] + rest) == seq![a, b, c] + base64_decoded(rest)
            &&& c == 0 ==> base64_decoded(seq![w, x, y, '=']) == seq![a, b]
            &&& b == 0 && c == 0 ==> base64_decoded(seq![w, x, '=', '=']) == seq![a]
        }),
{
    lemma_base64_bits(a, b, c);
    lemma_base64_digit_is_read_back((a / 4) as int);
    lemma_base64_digit_is_read_back(a % 4 * 16 + b / 16);
    lemma_base64_digit_is_read_back(b % 16 * 4 + c / 64);
    lemma_base64_digit_is_read_back((c % 64) as int);
    let w = base64_digit((a / 4) as int);
    let x = base64_digit(a % 4 * 16 + b / 16);
    let y = base64_digit(b % 16 * 4 + c / 64);
    let z = base64_digit((c % 64) as int);
    let text = seq![w, x, y, z] + rest;
    assert(text[0] == w && text[1] == x && text[2] == y && text[3] == z);
    assert(text.skip(4) =~= rest);
    assert(seq![a, b, c].take(2) =~= seq![a, b]);
    assert(seq![a, b, c].take(1) =~= seq![a]);
}

/// Bytes in base64 are read as those bytes.
pub proof fn law_base64_is_read_back(bytes: Seq<u8>)
    ensures
        base64_decoded(base64_text(bytes)) == bytes,
    decreases bytes.len(),
{
    if bytes.len() == 0 {
        assert(bytes =~= Seq::empty());
    } else if bytes.len() == 1 {
        lemma_base64_group(bytes[0], 0, 0, Seq::empty());
        assert(seq![bytes[0]] =~= bytes);
    } else if bytes.len() == 2 {
        lemma_base64_group(bytes[0], bytes[1], 0, Seq::empty());
        assert(seq![bytes[0], bytes[1]] =~= bytes);
    } else {
        law_base64_is_read_back(bytes.skip(3));
        lemma_base64_group(bytes[0], bytes[1], bytes[2], base64_text(bytes.skip(3)));
        assert(seq![bytes[0], bytes[1], bytes[2]] + bytes.skip(3) =~= bytes);
    }
}

/// A signature is read as the HMAC-SHA1 code of the text, under the secret with
/// one ampersand behind it, both byte for byte.
pub proof fn law_signature_is_read_back(string_to_sign: Seq<char>, access_key_secret: Seq<char>)
    ensures
        base64_decoded(signature_text(string_to_sign, access_key_secret)) == hmac_sha1_code(
            encode_utf8(access_key_secret) + seq!['&' as u8],
            encode_utf8(string_to_sign),
        ),
{
    lemma_utf8_of_ampersand(access_key_secret);
    law_base64_is_read_back(
        hmac_sha1_code(
            encode_utf8(access_key_secret + seq!['&']),
            encode_utf8(string_to_sign),
        ),
    );
}

/// An authentication code as it is written in a request.
pub fn code_text(code: &[u8; 20]) -> (text: String)
    ensures
        text@ == base64_text(code@),
        is_signature(text@),
        base64_decoded(text@) == code@,
{
    proof {
        lemma_base64_with_two_left(code@);
        law_base64_is_read_back(code@);
    }
    base64_encode(code.as_slice())
}

/// Signs a text with the secret of an access key.
pub fn signature(string_to_sign: &str, access_key_secret: &str) -> (signature: Result<
    String,
    ToolError,
>)
    ensures
        signature matches Ok(text) && text@ == signature_text(string_to_sign@, access_key_secret@)
            && is_signature(text@),
        signature matches Ok(text) && text@ == base64_text(
            hmac_sha1_code(
                encode_utf8(access_key_secret@) + seq!['&' as u8],
                encode_utf8(string_to_sign@),
            ),
        ),
        signature matches Ok(text) && base64_decoded(text@) == hmac_sha1_code(
            encode_utf8(access_key_secret@) + seq!['&' as u8],
            encode_utf8(string_to_sign@),
        ),
        hmac_sha1_code(
            encode_utf8(access_key_secret@ + seq!['&']),
            encode_utf8(string_to_sign@),
        ).len() == 20,
{
    proof {
        lemma_utf8_of_ampersand(access_key_secret@);
        law_signature_is_read_back(string_to_sign@, access_key_secret@);
    }
    let mut key = access_key_secret.to_string();
    key.push('&');
    assert(key@ =~= access_key_secret@ + seq!['&']);
    match hmac_sha1(key.as_str().as_bytes(), string_to_sign.as_bytes()) {
        Ok(code) => Ok(code_text(&code)),
        Err(_) => Err(ToolError::SignerSetup),
    }
}

/// The text that the signature of a request covers.
pub open spec fn signed_text(params: Map<Seq<char>, Seq<char>>) -> Seq<char> {
    "GET&%2F&"@ + percent_encoded(query_text(params))
}

/// The text that the signature of a request covers.
pub fn string_to_sign(params: &Params) -> (text: String)
    ensures
        text@ == signed_text(params@),
{
    let query = canonicalized_query(params);
    let encoded = aliyun_percent_encode(query.as_str());
    "GET&%2F&".to_string().concat(encoded.as_str())
}

/// The parameters of a request with those that every request carries.
pub open spec fn with_common_params(
    params: Map<Seq<char>, Seq<char>>,
    access_key_id: Seq<char>,
    nonce: Seq<char>,
    timestamp: Seq<char>,
) -> Map<Seq<char>, Seq<char>> {
    params.insert("Format"@, "JSON"@).insert("Version"@, API_VERSION@).insert(
        "AccessKeyId"@,
        access_key_id,
    ).insert("SignatureMethod"@, "HMAC-SHA1"@).insert("SignatureVersion"@, "1.0"@).insert(
        "SignatureNonce"@,
        nonce,
    ).insert("Timestamp"@, timestamp)
}

/// The parameters of a signed request.
pub open spec fn signed_params(
    params: Map<Seq<char>, Seq<char>>,
    credentials: Credentials,
    nonce: Seq<char>,
    timestamp: Seq<char>,
) -> Map<Seq<char>, Seq<char>> {
    let common = with_common_params(params, credentials.access_key_id@, nonce, timestamp);
    common.insert(
        "Signature"@,
        signature_text(signed_text(common), credentials.access_key_secret@),
    )
}

/// Signs the parameters of a request, with the nonce and the timestamp given.
pub fn sign_params_with(
    params: Params,
    credentials: &Credentials,
    nonce: String,
    timestamp: String,
) -> (signed: Result<Params, ToolError>)
    ensures
        signed matches Ok(all) && all@ == signed_params(
            params@,
            *credentials,
            nonce@,
            timestamp@,
        ) && is_signature(all@["Signature"@]),
{
    let mut params = params;
    params.insert("Format".to_string(), "JSON".to_string());
    params.insert("Version".to_string(), API_VERSION.to_string());
    params.insert("AccessKeyId".to_string(), credentials.access_key_id.clone());
    params.insert("SignatureMethod".to_string(), "HMAC-SHA1".to_string());
    params.insert("SignatureVersion".to_string(), "1.0".to_string());
    params.insert("SignatureNonce".to_string(), nonce);
    params.insert("Timestamp".to_string(), timestamp);

    let text = string_to_sign(&params);
    match signature(text.as_str(), credentials.access_key_secret.as_str()) {
        Ok(signature) => {
            params.insert("Signature".to_string(), signature);
            Ok(params)
        },
        Err(error) => Err(error),
    }
}

/// Whether `signed` is what signing makes of a request: the request signed under
/// some nonce at some reading of the clock, or the error of a reading before 1970.
pub open spec fn is_signed_request(
    signed: Result<Params, ToolError>,
    request: Map<Seq<char>, Seq<char>>,
    credentials: Credentials,
) -> bool {
    match signed {
        Ok(all) => exists|nonce: Seq<char>, now: SystemTime|
            #![trigger is_nonce(nonce), reading_timestamp(now)]
            is_nonce(nonce) && reading_timestamp(now) is Ok && all@ == signed_params(
                request,
                credentials,
                nonce,
                reading_timestamp(now)->Ok_0,
            ) && is_signature(all@["Signature"@]),
        Err(ToolError::ClockBeforeEpoch(cause)) => exists|now: SystemTime| #[trigger]
            reading_timestamp(now) == Err::<Seq<char>, SystemTimeError>(cause),
        Err(_) => false,
    }
}

/// Signs the parameters of a request, with a new nonce and the time of the
/// system clock. It fails only where the clock stands before 1970. Which nonce
/// comes is left to chance, and what the clock reads to the machine.
pub fn sign_params(params: Params, credentials: &Credentials) -> (signed: Result<
    Params,
    ToolError,
>)
    ensures
        is_signed_request(signed, params@, *credentials),
{
    let nonce = new_nonce();
    let now = SystemTime::now();
    match aliyun_timestamp(now) {
        Ok(timestamp) => sign_params_with(params, credentials, nonce, timestamp),
        Err(error) => Err(error),
    }
}

/// The names of the parameters that signing sets.
pub open spec fn is_set_by_signing(name: Seq<char>) -> bool {
    ||| name == "Format"@
    ||| name == "Version"@
    ||| name == "AccessKeyId"@
    ||| name == "SignatureMethod"@
    ||| name == "SignatureVersion"@
    ||| name == "SignatureNonce"@
    ||| name == "Timestamp"@
    ||| name == "Signature"@
}

/// The names that signing sets are different from one another.
proof fn lemma_signing_names_differ()
    ensures
        "Format"@ != "Version"@,
        "Format"@ != "AccessKeyId"@,
        "Format"@ != "SignatureMethod"@,
        "Format"@ != "SignatureVersion"@,
        "Format"@ != "SignatureNonce"@,
        "Format"@ != "Timestamp"@,
        "Format"@ != "Signature"@,
        "Version"@ != "AccessKeyId"@,
        "Version"@ != "SignatureMethod"@,
        "Version"@ != "SignatureVersion"@,
        "Version"@ != "SignatureNonce"@,
        "Version"@ != "Timestamp"@,
        "Version"@ != "Signature"@,
        "AccessKeyId"@ != "SignatureMethod"@,
        "AccessKeyId"@ != "SignatureVersion"@,
        "AccessKeyId"@ != "SignatureNonce"@,
        "AccessKeyId"@ != "Timestamp"@,
        "AccessKeyId"@ != "Signature"@,
        "SignatureMethod"@ != "SignatureVersion"@,
        "SignatureMethod"@ != "SignatureNonce"@,
        "SignatureMethod"@ != "Timestamp"@,
        "SignatureMethod"@ != "Signature"@,
        "SignatureVersion"@ != "SignatureNonce"@,
        "SignatureVersion"@ != "Timestamp"@,
        "SignatureVersion"@ != "Signature"@,
        "SignatureNonce"@ != "Timestamp"@,
        "SignatureNonce"@ != "Signature"@,
        "Timestamp"@ != "Signature"@,
{
    reveal_strlit("Format");
    reveal_strlit("Version");
    reveal_strlit("AccessKeyId");
    reveal_strlit("SignatureMethod");
    reveal_strlit("SignatureVersion");
    reveal_strlit("SignatureNonce");
    reveal_strlit("Timestamp");
    reveal_strlit("Signature");
    assert("SignatureMethod"@.len() == 15 && "SignatureVersion"@.len() == 16);
    assert("SignatureNonce"@.len() == 14 && "Signature"@.len() == 9);
    assert("Format"@[0] == 'F' && "Version"@[0] == 'V' && "AccessKeyId"@[0] == 'A');
    assert("Timestamp"@[0] == 'T' && "SignatureMethod"@[0] == 'S' && "SignatureVersion"@[0] == 'S');
    assert("SignatureNonce"@[0] == 'S' && "Signature"@[0] == 'S');
}

/// What signing does to the parameters of a request: it adds the eight
/// parameters that it sets, each with its value, and keeps all others as they
/// are.
pub proof fn law_signing_keeps_the_request(
    params: Map<Seq<char>, Seq<char>>,
    credentials: Credentials,
    nonce: Seq<char>,
    timestamp: Seq<char>,
)
    ensures
        ({
            let signed = signed_params(params, credentials, nonce, timestamp);
            &&& forall|name: Seq<char>|
                #![trigger signed.contains_key(name)]
                signed.contains_key(name) <==> params.contains_key(name) || is_set_by_signing(name)
            &&& forall|name: Seq<char>|
                #![trigger signed[name]]
                params.contains_key(name) && !is_set_by_signing(name) ==> signed[name]
                    == params[name]
            &&& signed["Format"@] == "JSON"@
            &&& signed["Version"@] == API_VERSION@
            &&& signed["AccessKeyId"@] == credentials.access_key_id@
            &&& signed["SignatureMethod"@] == "HMAC-SHA1"@
            &&& signed["SignatureVersion"@] == "1.0"@
            &&& signed["SignatureNonce"@] == nonce
            &&& signed["Timestamp"@] == timestamp
        }),
{
    lemma_signing_names_differ();
}

/// The signature of a request covers all of its other parameters: whoever holds
/// the secret computes it again from them.
pub proof fn law_signature_covers_the_request(
    params: Map<Seq<char>, Seq<char>>,
    credentials: Credentials,
    nonce: Seq<char>,
    timestamp: Seq<char>,
)
    requires
        !params.contains_key("Signature"@),
    ensures
        ({
            let signed = signed_params(params, credentials, nonce, timestamp);
            signed["Signature"@] == signature_text(
                signed_text(signed.remove("Signature"@)),
                credentials.access_key_secret@,
            )
        }),
{
    lemma_signing_names_differ();
    let common = with_common_params(params, credentials.access_key_id@, nonce, timestamp);
    let signed = signed_params(params, credentials, nonce, timestamp);
    assert(!common.contains_key("Signature"@));
    assert(signed.remove("Signature"@) =~= common);
}

/// The text that is signed identifies the parameters: no two different requests
/// are signed as the same text.
pub proof fn law_signed_text_identifies_params(
    a: Map<Seq<char>, Seq<char>>,
    b: Map<Seq<char>, Seq<char>>,
)
    requires
        a.dom().finite(),
        b.dom().finite(),
        signed_text(a) == signed_text(b),
    ensures
        a == b,
{
    let n = "GET&%2F&"@.len() as int;
    assert(signed_text(a).skip(n) =~= percent_encoded(query_text(a)));
    assert(signed_text(b).skip(n) =~= percent_encoded(query_text(b)));
    law_percent_encoding_is_injective(query_text(a), query_text(b));
    law_query_identifies_params(a, b);
}

/// The text that is signed holds the method, the path and the query: `GET`, the
/// encoded `/`, and the percent encoded canonicalized query, which is read back
/// byte for byte.
pub proof fn law_signed_text_is_read_back(params: Map<Seq<char>, Seq<char>>)
    ensures
        signed_text(params).len() >= 8,
        signed_text(params).take(8) == seq!['G', 'E', 'T', '&', '%', '2', 'F', '&'],
        signed_text(params).skip(8) == percent_encoded(query_text(params)),
        percent_decoded(signed_text(params).skip(8)) == encode_utf8(query_text(params)),
{
    reveal_strlit("GET&%2F&");
    law_percent_encoding_is_read_back(query_text(params));
    assert(signed_text(params).take(8) =~= seq!['G', 'E', 'T', '&', '%', '2', 'F', '&']);
    assert(signed_text(params).skip(8) =~= percent_encoded(query_text(params)));
}

/// What a signed request is, parameter by parameter: those of the request, as
/// they are, and the eight that signing sets, of which the signature is read as
/// the HMAC-SHA1 code of all the others; a signature that the request had before
/// is covered too.
pub proof fn law_signed_params(
    params: Map<Seq<char>, Seq<char>>,
    credentials: Credentials,
    nonce: Seq<char>,
    timestamp: Seq<char>,
)
    ensures
        ({
            let signed = signed_params(params, credentials, nonce, timestamp);
            &&& forall|name: Seq<char>| #[trigger]
                signed.contains_key(name) <==> params.contains_key(name) || name == "Format"@ || name
                    == "Version"@ || name == "AccessKeyId"@ || name == "SignatureMethod"@ || name
                    == "SignatureVersion"@ || name == "SignatureNonce"@ || name == "Timestamp"@
                    || name == "Signature"@
            &&& forall|name: Seq<char>|
                #![trigger signed[name]]
                params.contains_key(name) && name != "Format"@ && name != "Version"@ && name
                    != "AccessKeyId"@ && name != "SignatureMethod"@ && name != "SignatureVersion"@
                    && name != "SignatureNonce"@ && name != "Timestamp"@ && name != "Signature"@
                    ==> signed[name] == params[name]
            &&& signed["Format"@] == "JSON"@
            &&& signed["Version"@] == "2018-05-10"@
            &&& signed["AccessKeyId"@] == credentials.access_key_id@
            &&& signed["SignatureMethod"@] == "HMAC-SHA1"@
            &&& signed["SignatureVersion"@] == "1.0"@
            &&& signed["SignatureNonce"@] == nonce
            &&& signed["Timestamp"@] == timestamp
            &&& base64_decoded(signed["Signature"@]) == hmac_sha1_code(
                encode_utf8(credentials.access_key_secret@) + seq!['&' as u8],
                encode_utf8(
                    "GET&%2F&"@ + percent_encoded(
                        query_text(
                            if params.contains_key("Signature"@) {
                                signed.insert("Signature"@, params["Signature"@])
                            } else {
                                signed.remove("Signature"@)
                            },
                        ),
                    ),
                ),
            )
        }),
{
    lemma_signing_names_differ();
    let common = with_common_params(params, credentials.access_key_id@, nonce, timestamp);
    let signed = signed_params(params, credentials, nonce, timestamp);
    if params.contains_key("Signature"@) {
        assert(common["Signature"@] == params["Signature"@]);
        assert(signed.insert("Signature"@, params["Signature"@]) =~= common);
    } else {
        assert(signed.remove("Signature"@) =~= common);
    }
    law_signature_is_read_back(signed_text(common), credentials.access_key_secret@);
}

/// What is sent for a request: the request as it is, but for the eight
/// parameters that signing sets; the access key id; a nonce; the timestamp of a
/// reading of the clock; and the signature of all that under the secret.
pub proof fn law_signed_request(
    signed: Result<Params, ToolError>,
    request: Map<Seq<char>, Seq<char>>,
    credentials: Credentials,
)
    requires
        is_signed_request(signed, request, credentials),
        signed is Ok,
    ensures
        ({
            let sent = signed->Ok_0@;
            &&& forall|name: Seq<char>| #[trigger]
                sent.contains_key(name) <==> request.contains_key(name) || name == "Format"@ || name
                    == "Version"@ || name == "AccessKeyId"@ || name == "SignatureMethod"@ || name
                    == "SignatureVersion"@ || name == "SignatureNonce"@ || name == "Timestamp"@
                    || name == "Signature"@
            &&& forall|name: Seq<char>|
                #![trigger sent[name]]
                request.contains_key(name) && name != "Format"@ && name != "Version"@ && name
                    != "AccessKeyId"@ && name != "SignatureMethod"@ && name != "SignatureVersion"@
                    && name != "SignatureNonce"@ && name != "Timestamp"@ && name != "Signature"@
                    ==> sent[name] == request[name]
            &&& sent["Format"@] == "JSON"@
            &&& sent["Version"@] == "2018-05-10"@
            &&& sent["AccessKeyId"@] == credentials.access_key_id@
            &&& sent["SignatureMethod"@] == "HMAC-SHA1"@
            &&& sent["SignatureVersion"@] == "1.0"@
            &&& is_nonce(sent["SignatureNonce"@])
            &&& exists|now: SystemTime| #[trigger]
                since_epoch(now) is Ok && sent["Timestamp"@] == timestamp_text(
                    whole_seconds(since_epoch(now)->Ok_0) as nat,
                )
            &&& base64_decoded(sent["Signature"@]) == hmac_sha1_code(
                encode_utf8(credentials.access_key_secret@) + seq!['&' as u8],
                encode_utf8(
                    "GET&%2F&"@ + percent_encoded(
                        query_text(
                            if request.contains_key("Signature"@) {
                                sent.insert("Signature"@, request["Signature"@])
                            } else {
                                sent.remove("Signature"@)
                            },
                        ),
                    ),
                ),
            )
        }),
{
    let (nonce, now) = choose|nonce: Seq<char>, now: SystemTime|
        #![trigger is_nonce(nonce), reading_timestamp(now)]
        is_nonce(nonce) && reading_timestamp(now) is Ok && signed->Ok_0@ == signed_params(
            request,
            credentials,
            nonce,
            reading_timestamp(now)->Ok_0,
        ) && is_signature(signed->Ok_0@["Signature"@]);
    assert(since_epoch(now) is Ok);
    law_signed_params(request, credentials, nonce, reading_timestamp(now)->Ok_0);
}

/// Signing fails by the clock alone: whatever the request and the access key, the
/// only error is that of a reading before 1970.
pub proof fn law_signing_fails_by_the_clock_alone(
    signed: Result<Params, ToolError>,
    request: Map<Seq<char>, Seq<char>>,
    credentials: Credentials,
)
    requires
        is_signed_request(signed, request, credentials),
        signed is Err,
    ensures
        signed->Err_0 is ClockBeforeEpoch,
        exists|now: SystemTime| #[trigger]
            since_epoch(now) is Err && signed->Err_0 == ToolError::ClockBeforeEpoch(
                since_epoch(now)->Err_0,
            ),
{
    let cause = signed->Err_0->ClockBeforeEpoch_0;
    let now = choose|now: SystemTime| #[trigger]
        reading_timestamp(now) == Err::<Seq<char>, SystemTimeError>(cause);
    assert(since_epoch(now) is Err);
}

} // verus!
