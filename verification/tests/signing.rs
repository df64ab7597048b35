use aliyun_tools::clock::aliyun_timestamp;
use aliyun_tools::credentials::Credentials;
use aliyun_tools::encoding::aliyun_percent_encode;
use aliyun_tools::error::ToolError;
use aliyun_tools::params::Params;
use aliyun_tools::query::canonicalized_query;
use aliyun_tools::signing::{code_text, sign_params, sign_params_with, signature, string_to_sign};
use percent_encoding::{utf8_percent_encode, AsciiSet, CONTROLS};
use std::collections::BTreeMap;
use std::time::SystemTime;

const ENCODE_SET: &AsciiSet = &CONTROLS
    .add(b' ')
    .add(b'"')
    .add(b'#')
    .add(b'$')
    .add(b'%')
    .add(b'&')
    .add(b'\'')
    .add(b'(')
    .add(b')')
    .add(b'*')
    .add(b'+')
    .add(b',')
    .add(b'/')
    .add(b':')
    .add(b';')
    .add(b'<')
    .add(b'=')
    .add(b'>')
    .add(b'?')
    .add(b'@')
    .add(b'[')
    .add(b'\\')
    .add(b']')
    .add(b'^')
    .add(b'`')
    .add(b'{')
    .add(b'|')
    .add(b'}');

fn credentials() -> Credentials {
    Credentials {
        access_key_id: "testid".to_string(),
        access_key_secret: "testsecret".to_string(),
    }
}

fn rollback() -> Params {
    let mut params = Params::new();
    params.insert("Action".to_string(), "RollbackStagingConfig".to_string());
    params.insert("DomainName".to_string(), "cdn.example.com".to_string());
    params.insert("FunctionName".to_string(), "edge_function".to_string());
    params
}

fn value<'a>(params: &'a Params, name: &str) -> Option<&'a str> {
    params
        .pairs()
        .iter()
        .find(|pair| pair.0 == name)
        .map(|pair| pair.1.as_str())
}

#[test]
fn percent_encoding_matches_aliyun_requirements() {
    assert_eq!(aliyun_percent_encode("a b*c~"), "a%20b%2Ac~");
    assert_eq!(aliyun_percent_encode("/?:&="), "%2F%3F%3A%26%3D");
}

#[test]
fn percent_encoding_agrees_with_the_encode_set() {
    for code in 0..=0x10_ffffu32 {
        if let Some(c) = char::from_u32(code) {
            let text = c.to_string();
            assert_eq!(
                aliyun_percent_encode(&text),
                utf8_percent_encode(&text, ENCODE_SET).to_string()
            );
        }
    }
    assert_eq!(aliyun_percent_encode(""), "");
    assert_eq!(aliyun_percent_encode("\u{e9}!\n"), "%C3%A9!%0A");
}

#[test]
fn builds_canonicalized_query_in_sorted_order() {
    let mut params = Params::new();
    params.insert("Version".to_string(), "2018-05-10".to_string());
    params.insert("Action".to_string(), "RefreshObjectCaches".to_string());
    params.insert(
        "ObjectPath".to_string(),
        "https://example.com/a/".to_string(),
    );

    assert_eq!(
        canonicalized_query(&params),
        "Action=RefreshObjectCaches&ObjectPath=https%3A%2F%2Fexample.com%2Fa%2F&Version=2018-05-10"
    );
}

#[test]
fn parameters_keep_the_order_of_a_sorted_map() {
    let names = [
        "b", "", "ab", "a", "B", "\u{ffff}", "\u{10000}", "z", "\u{e9}", "a", "abc", "b",
    ];
    let mut params = Params::new();
    let mut map = BTreeMap::new();
    for (i, name) in names.iter().enumerate() {
        params.insert(name.to_string(), i.to_string());
        map.insert(name.to_string(), i.to_string());
        let pairs: Vec<(String, String)> =
            map.iter().map(|(k, v)| (k.clone(), v.clone())).collect();
        assert_eq!(params.pairs(), &pairs);
    }
}

#[test]
fn query_of_no_parameters_is_empty() {
    let mut params = Params::new();
    assert_eq!(canonicalized_query(&params), "");
    params.insert(String::new(), String::new());
    assert_eq!(canonicalized_query(&params), "=");
}

#[test]
fn query_does_not_rest_on_the_order_of_insertion() {
    let mut reversed = Params::new();
    for (name, value) in rollback().pairs().iter().rev() {
        reversed.insert(name.clone(), "other".to_string());
        reversed.insert(name.clone(), value.clone());
    }
    assert_eq!(canonicalized_query(&reversed), canonicalized_query(&rollback()));
}

#[test]
fn different_parameters_have_different_queries() {
    let cases = [("a", "b=c"), ("a=b", "c"), ("a", "b&c=d"), ("a%3Db", "c"), ("a", "b")];
    for (i, x) in cases.iter().enumerate() {
        for (j, y) in cases.iter().enumerate() {
            let mut a = Params::new();
            a.insert(x.0.to_string(), x.1.to_string());
            let mut b = Params::new();
            b.insert(y.0.to_string(), y.1.to_string());
            assert_eq!(canonicalized_query(&a) == canonicalized_query(&b), i == j);
            assert_eq!(string_to_sign(&a) == string_to_sign(&b), i == j);
        }
    }
}

#[test]
fn signs_known_string() {
    let value = signature("GET&%2F&Action%3DTest", "secret").unwrap();
    assert_eq!(value, "vqA/LwIo/qiGVRH8r7L/RtWdrNM=");
}

#[test]
fn signs_with_long_and_empty_secrets() {
    assert_eq!(signature("", "").unwrap().len(), 28);
    assert_ne!(
        signature("a", &"s".repeat(100)).unwrap(),
        signature("a", &"s".repeat(101)).unwrap()
    );
}

#[test]
fn signatures_have_one_form() {
    for secret in ["", "secret", "\u{e9}"] {
        for text in ["", "GET&%2F&Action%3DTest", "a&b"] {
            let signature = signature(text, secret).unwrap();
            assert_eq!(signature.len(), 28);
            assert_eq!(signature.find('='), Some(27));
            for c in signature.chars().take(27) {
                assert!(c.is_ascii_alphanumeric() || c == '+' || c == '/');
            }
        }
    }
}

#[test]
fn writes_codes_in_base64() {
    let mut code = [0u8; 20];
    assert_eq!(code_text(&code), "AAAAAAAAAAAAAAAAAAAAAAAAAAA=");
    for i in 0..20u8 {
        code[usize::from(i)] = i;
    }
    assert_eq!(code_text(&code), "AAECAwQFBgcICQoLDA0ODxAREhM=");
    assert_eq!(code_text(&[255u8; 20]), "//////////////////////////8=");
}

#[test]
fn signs_a_whole_request() {
    let signed = sign_params_with(
        rollback(),
        &credentials(),
        "3ee8c1b8-83d3-44af-a94f-4e0ad82fd6cf".to_string(),
        "2024-01-01T00:00:00Z".to_string(),
    )
    .unwrap();
    let expected = [
        ("AccessKeyId", "testid"),
        ("Action", "RollbackStagingConfig"),
        ("DomainName", "cdn.example.com"),
        ("Format", "JSON"),
        ("FunctionName", "edge_function"),
        ("Signature", "M2NLOUyBWG2qAstHj1ekyI5zewM="),
        ("SignatureMethod", "HMAC-SHA1"),
        ("SignatureNonce", "3ee8c1b8-83d3-44af-a94f-4e0ad82fd6cf"),
        ("SignatureVersion", "1.0"),
        ("Timestamp", "2024-01-01T00:00:00Z"),
        ("Version", "2018-05-10"),
    ];
    let expected: Vec<(String, String)> = expected
        .iter()
        .map(|(k, v)| (k.to_string(), v.to_string()))
        .collect();
    assert_eq!(signed.pairs(), &expected);
}

#[test]
fn signature_covers_all_other_parameters() {
    let signed = sign_params(rollback(), &credentials()).unwrap();
    let mut covered = Params::new();
    for (name, value) in signed.pairs() {
        if name != "Signature" {
            covered.insert(name.clone(), value.clone());
        }
    }
    let text = string_to_sign(&covered);
    assert!(text.starts_with("GET&%2F&AccessKeyId%3Dtestid%26Action%3D"));
    assert_eq!(
        value(&signed, "Signature").unwrap(),
        signature(&text, "testsecret").unwrap()
    );
}

#[test]
fn signing_replaces_only_its_own_parameters() {
    let mut params = rollback();
    params.insert("Format".to_string(), "XML".to_string());
    params.insert("Signature".to_string(), "none".to_string());
    let signed = sign_params(params, &credentials()).unwrap();
    assert_eq!(signed.pairs().len(), 11);
    assert_eq!(value(&signed, "Format"), Some("JSON"));
    assert_ne!(value(&signed, "Signature"), Some("none"));
    assert_eq!(value(&signed, "DomainName"), Some("cdn.example.com"));
}

#[test]
fn requests_carry_the_time_of_the_clock() {
    let before = aliyun_timestamp(SystemTime::now()).unwrap();
    let signed = sign_params(rollback(), &credentials()).unwrap();
    let after = aliyun_timestamp(SystemTime::now()).unwrap();
    let timestamp = value(&signed, "Timestamp").unwrap();
    assert!(before.as_str() <= timestamp && timestamp <= after.as_str());
}

#[test]
fn every_request_has_a_nonce_of_its_own() {
    let first = sign_params(rollback(), &credentials()).unwrap();
    let second = sign_params(rollback(), &credentials()).unwrap();
    let a = value(&first, "SignatureNonce").unwrap();
    let b = value(&second, "SignatureNonce").unwrap();
    assert_ne!(a, b);
    for nonce in [a, b] {
        let chars: Vec<char> = nonce.chars().collect();
        assert_eq!(chars.len(), 36);
        for (i, c) in chars.iter().enumerate() {
            if i == 8 || i == 13 || i == 18 || i == 23 {
                assert_eq!(*c, '-');
            } else {
                assert!(c.is_ascii_digit() || ('a'..='f').contains(c));
            }
        }
        assert_eq!(chars[14], '4');
        assert!(matches!(chars[19], '8' | '9' | 'a' | 'b'));
    }
    assert_eq!(value(&first, "Timestamp").unwrap().len(), 20);
}

#[test]
fn credentials_need_both_variables() {
    let id = || Some("id".to_string());
    let secret = || Some("SECRET".to_string());
    let found = Credentials::from_vars(id(), secret()).unwrap();
    assert_eq!(found.access_key_id, "id");
    assert_eq!(found.access_key_secret, "SECRET");

    let error = Credentials::from_vars(None, None).unwrap_err();
    assert!(matches!(error, ToolError::MissingAccessKeyId));
    assert_eq!(
        error.message(),
        "ALIBABA_CLOUD_ACCESS_KEY_ID environment variable is required"
    );
    let error = Credentials::from_vars(id(), None).unwrap_err();
    assert!(matches!(error, ToolError::MissingAccessKeySecret));
    assert_eq!(
        error.message(),
        "ALIBABA_CLOUD_ACCESS_KEY_SECRET environment variable is required"
    );
}

#[test]
fn says_that_the_signer_is_not_set_up() {
    assert_eq!(
        ToolError::SignerSetup.message(),
        "failed to initialize HMAC signer"
    );
}

#[test]
fn plain_text_is_not_encoded() {
    let plain = "ABCXYZabcxyz0189!-._~";
    assert_eq!(aliyun_percent_encode(plain), plain);
    assert_eq!(aliyun_percent_encode("%"), "%25");
}
