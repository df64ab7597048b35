use aliyun_tools::client::{
    publish_params, push_params, query_params, refresh_params, rollback_params, CdnClient,
    CDN_ENDPOINT,
};
use aliyun_tools::credentials::Credentials;
use aliyun_tools::edgescript::edge_function_config;
use aliyun_tools::error::ToolError;
use aliyun_tools::options::{EdgeScriptEnv, EdgeScriptPosition, OnOff, RefreshType};
use aliyun_tools::params::Params;
use aliyun_tools::response::{judge_response, pretty_json, read_response, HttpStatus};
use serde_json::Value;

fn client() -> CdnClient {
    CdnClient::new(Credentials {
        access_key_id: "testid".to_string(),
        access_key_secret: "testsecret".to_string(),
    })
}

fn expect(params: &Params, expected: &[(&str, &str)]) {
    let expected: Vec<(String, String)> = expected
        .iter()
        .map(|(k, v)| (k.to_string(), v.to_string()))
        .collect();
    assert_eq!(params.pairs(), &expected);
}

fn holds(signed: &Params, request: &Params) {
    assert_eq!(signed.pairs().len(), request.pairs().len() + 8);
    for pair in request.pairs() {
        assert!(signed.pairs().contains(pair));
    }
    let id = ("AccessKeyId".to_string(), "testid".to_string());
    assert!(signed.pairs().contains(&id));
}

fn status(code: u16, text: &str) -> HttpStatus {
    HttpStatus {
        code,
        text: text.to_string(),
    }
}

#[test]
fn staging_push_shape_contains_edge_function_rule() {
    let functions = edge_function_config(
        &OnOff::On,
        "static_site_rewrite",
        &EdgeScriptPosition::Head,
        1,
        "if eq($uri, '/') {}",
    );

    assert!(functions.to_string().contains("edge_function"));
    assert!(functions.to_string().contains("static_site_rewrite"));
}

#[test]
fn writes_the_edge_function_as_json() {
    assert_eq!(
        edge_function_config(
            &OnOff::On,
            "static_site_rewrite",
            &EdgeScriptPosition::Head,
            1,
            "if eq($uri, '/') {}",
        ),
        "[{\"functionArgs\":[{\"argName\":\"enable\",\"argValue\":\"on\"},\
         {\"argName\":\"name\",\"argValue\":\"static_site_rewrite\"},\
         {\"argName\":\"pos\",\"argValue\":\"head\"},\
         {\"argName\":\"pri\",\"argValue\":\"1\"},\
         {\"argName\":\"rule\",\"argValue\":\"if eq($uri, '/') {}\"}],\
         \"functionName\":\"edge_function\"}]"
    );
}

#[test]
fn escapes_what_json_strings_cannot_hold() {
    let functions = edge_function_config(
        &OnOff::Off,
        "\u{0}\u{1f}\u{7f}\u{e9}",
        &EdgeScriptPosition::Foot,
        999,
        "\"\\\n\r\t\u{8}\u{c}/",
    );
    assert_eq!(
        functions,
        "[{\"functionArgs\":[{\"argName\":\"enable\",\"argValue\":\"off\"},\
         {\"argName\":\"name\",\"argValue\":\"\\u0000\\u001f\u{7f}\u{e9}\"},\
         {\"argName\":\"pos\",\"argValue\":\"foot\"},\
         {\"argName\":\"pri\",\"argValue\":\"999\"},\
         {\"argName\":\"rule\",\"argValue\":\"\\\"\\\\\\n\\r\\t\\b\\f/\"}],\
         \"functionName\":\"edge_function\"}]"
    );
}

#[test]
fn edge_function_is_read_back() {
    let all: String = (0..0x3000u32).filter_map(char::from_u32).collect();
    let functions =
        edge_function_config(&OnOff::On, "n", &EdgeScriptPosition::Head, 0, &all);
    let value: Value = serde_json::from_str(&functions).unwrap();
    assert_eq!(value[0]["functionName"], Value::from("edge_function"));
    assert_eq!(value[0]["functionArgs"][3]["argValue"], Value::from("0"));
    assert_eq!(value[0]["functionArgs"][4]["argName"], Value::from("rule"));
    assert_eq!(value[0]["functionArgs"][4]["argValue"], Value::from(all));
}

#[test]
fn names_the_choices_as_the_api_does() {
    assert_eq!(RefreshType::File.as_api_value(), "file");
    assert_eq!(RefreshType::Directory.as_api_value(), "directory");
    assert_eq!(EdgeScriptPosition::Head.as_api_value(), "head");
    assert_eq!(EdgeScriptPosition::Foot.as_api_value(), "foot");
    assert_eq!(OnOff::On.as_api_value(), "on");
    assert_eq!(OnOff::Off.as_api_value(), "off");
    assert_eq!(CDN_ENDPOINT, "https://cdn.aliyuncs.com/");
}

#[test]
fn refresh_lists_urls_line_by_line() {
    let urls = ["https://a/".to_string(), "https://b/".to_string()];
    let request = refresh_params(&urls, &RefreshType::Directory);
    expect(
        &request,
        &[
            ("Action", "RefreshObjectCaches"),
            ("ObjectPath", "https://a/\nhttps://b/"),
            ("ObjectType", "directory"),
        ],
    );
    let signed = client()
        .refresh_object_caches(&urls, &RefreshType::Directory)
        .unwrap();
    holds(&signed, &request);
}

#[test]
fn queries_read_production_or_staging() {
    let request = query_params("cdn.example.com", &EdgeScriptEnv::Production);
    expect(
        &request,
        &[
            ("Action", "DescribeCdnDomainConfigs"),
            ("DomainName", "cdn.example.com"),
            ("FunctionNames", "edge_function"),
        ],
    );
    let request = query_params("cdn.example.com", &EdgeScriptEnv::Staging);
    expect(
        &request,
        &[
            ("Action", "DescribeCdnDomainStagingConfig"),
            ("DomainName", "cdn.example.com"),
            ("FunctionNames", "edge_function"),
        ],
    );
    let signed = client()
        .query_edgescript("cdn.example.com", &EdgeScriptEnv::Staging)
        .unwrap();
    holds(&signed, &request);
}

#[test]
fn publish_and_rollback_name_the_function() {
    let request = publish_params("d");
    expect(
        &request,
        &[
            ("Action", "PublishStagingConfigToProduction"),
            ("DomainName", "d"),
            ("FunctionName", "edge_function"),
        ],
    );
    holds(&client().publish_edgescript_staging("d").unwrap(), &request);

    let request = rollback_params("d");
    expect(
        &request,
        &[
            ("Action", "RollbackStagingConfig"),
            ("DomainName", "d"),
            ("FunctionName", "edge_function"),
        ],
    );
    holds(&client().rollback_edgescript_staging("d").unwrap(), &request);
}

#[test]
fn push_carries_the_edge_function() {
    let head = EdgeScriptPosition::Head;
    let functions = edge_function_config(&OnOff::On, "n", &head, 999, "r");
    let request = push_params("d", "r", "n", 999, &head, &OnOff::On).unwrap();
    expect(
        &request,
        &[
            ("Action", "SetCdnDomainStagingConfig"),
            ("DomainName", "d"),
            ("Functions", &functions),
        ],
    );
    let signed = client()
        .push_edgescript_staging("d", "r", "n", 999, &head, &OnOff::On)
        .unwrap();
    holds(&signed, &request);
}

#[test]
fn push_refuses_priorities_above_999() {
    for pri in [1_000, u16::MAX] {
        let error = client()
            .push_edgescript_staging("d", "r", "n", pri, &EdgeScriptPosition::Foot, &OnOff::Off)
            .unwrap_err();
        assert!(matches!(error, ToolError::PriorityOutOfRange));
        assert_eq!(error.message(), "--pri must be between 0 and 999");
    }
}

#[test]
fn a_good_response_is_its_value() {
    for code in [200, 299] {
        let value = read_response(status(code, "OK"), " { \"b\": 1, \"a\": [] } ".to_string());
        let mut object = serde_json::Map::new();
        object.insert("a".to_string(), Value::Array(Vec::new()));
        object.insert("b".to_string(), Value::from(1));
        assert_eq!(value.unwrap(), Value::Object(object));
    }
}

#[test]
fn a_failed_request_shows_the_response() {
    for code in [199, 300, 404] {
        let error = read_response(
            status(code, "404 Not Found"),
            "{ \"Code\" : \"Missing\" }".to_string(),
        )
        .unwrap_err();
        assert!(matches!(error, ToolError::RequestFailed { .. }));
        assert_eq!(
            error.message(),
            "Aliyun API request failed with 404 Not Found: {\"Code\":\"Missing\"}"
        );
    }
}

#[test]
fn a_response_that_is_not_json_shows_the_body() {
    for code in [200, 502] {
        let error = read_response(status(code, "any"), "<html>".to_string()).unwrap_err();
        assert!(matches!(error, ToolError::NotJson { .. }));
        assert_eq!(error.message(), "Aliyun response was not JSON: <html>");
    }
}

#[test]
fn judges_a_parsed_response() {
    let parsed = Ok(Value::from("x"));
    let value = judge_response(status(204, "204 No Content"), String::new(), parsed);
    assert_eq!(value.unwrap(), Value::from("x"));

    let parsed = Ok(Value::from("x"));
    let error = judge_response(status(500, "500"), String::new(), parsed).unwrap_err();
    assert_eq!(error.message(), "Aliyun API request failed with 500: \"x\"");

    let parsed = serde_json::from_str("{");
    let error = judge_response(status(200, "200 OK"), "{".to_string(), parsed).unwrap_err();
    assert_eq!(error.message(), "Aliyun response was not JSON: {");
}

#[test]
fn prints_json_with_indentation() {
    let value: Value = serde_json::from_str("{\"b\":[1,true],\"a\":null}").unwrap();
    assert_eq!(
        pretty_json(&value).unwrap(),
        "{\n  \"a\": null,\n  \"b\": [\n    1,\n    true\n  ]\n}"
    );
}

#[test]
fn an_unprintable_response_keeps_its_cause() {
    let cause = serde_json::from_str::<Value>("").unwrap_err();
    let text = cause.to_string();
    let error = ToolError::Unprintable(cause);
    assert_eq!(error.message(), "failed to print the response");
    match error {
        ToolError::Unprintable(kept) => assert_eq!(kept.to_string(), text),
        _ => unreachable!(),
    }
}

#[test]
fn the_same_body_has_the_same_complaint() {
    for body in ["", "<html>", "{\"a\":}", "[1,]", "{\"a\" 1}"] {
        let complaint = serde_json::from_str::<Value>(body).unwrap_err().to_string();
        for code in [200, 500] {
            match read_response(status(code, "any"), body.to_string()).unwrap_err() {
                ToolError::NotJson { body: kept, cause } => {
                    assert_eq!(kept, body);
                    assert_eq!(cause.to_string(), complaint);
                }
                _ => unreachable!(),
            }
        }
    }
}

#[test]
fn different_functions_have_different_configurations() {
    let head = EdgeScriptPosition::Head;
    let texts = [
        edge_function_config(&OnOff::On, "a", &head, 1, "b"),
        edge_function_config(&OnOff::Off, "a", &head, 1, "b"),
        edge_function_config(&OnOff::On, "a\"", &head, 1, "b"),
        edge_function_config(&OnOff::On, "a\\\"", &head, 1, "b"),
        edge_function_config(&OnOff::On, "a", &EdgeScriptPosition::Foot, 1, "b"),
        edge_function_config(&OnOff::On, "a", &head, 10, "b"),
        edge_function_config(&OnOff::On, "a", &head, 1, "b\u{1}"),
        edge_function_config(&OnOff::On, "a", &head, 1, "b\\u0001"),
    ];
    for (i, a) in texts.iter().enumerate() {
        for (j, b) in texts.iter().enumerate() {
            assert_eq!(a == b, i == j);
        }
    }
}
