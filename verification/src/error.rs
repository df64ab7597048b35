//! What can go wrong.

use vstd::prelude::*;

verus! {

/// `std::time::SystemTimeError`, carried as it came.
#[verifier::external_type_specification]
#[verifier::external_body]
pub struct ExSystemTimeError(std::time::SystemTimeError);

/// `serde_json::Error`, carried as it came.
#[verifier::external_type_specification]
#[verifier::external_body]
pub struct ExJsonError(serde_json::Error);

/// The reasons for which the library refuses.
#[derive(Debug)]
pub enum ToolError {
    /// The access key id is not set.
    MissingAccessKeyId,
    /// The access key secret is not set.
    MissingAccessKeySecret,
    /// A refresh names no URL.
    NoUrls,
    /// The priority of a script is above 999.
    PriorityOutOfRange,
    /// The clock stands before 1970.
    ClockBeforeEpoch(std::time::SystemTimeError),
    /// The signer cannot be set up.
    SignerSetup,
    /// The body of a response is not JSON.
    NotJson { body: String, cause: serde_json::Error },
    /// The API answered with a status that is no success.
    RequestFailed { status: String, response: String },
    /// A response cannot be printed.
    Unprintable(serde_json::Error),
}

/// The environment variable of the access key id.
pub const ACCESS_KEY_ID_ENV: &'static str = "ALIBABA_CLOUD_ACCESS_KEY_ID";

/// The environment variable of the access key secret.
pub const ACCESS_KEY_SECRET_ENV: &'static str = "ALIBABA_CLOUD_ACCESS_KEY_SECRET";

impl ToolError {
    /// What the error says of itself.
    pub open spec fn text(self) -> Seq<char> {
        match self {
            ToolError::MissingAccessKeyId => ACCESS_KEY_ID_ENV@
                + " environment variable is required"@,
            ToolError::MissingAccessKeySecret => ACCESS_KEY_SECRET_ENV@
                + " environment variable is required"@,
            ToolError::NoUrls => "--urls must include at least one URL"@,
            ToolError::PriorityOutOfRange => "--pri must be between 0 and 999"@,
            ToolError::ClockBeforeEpoch(_) => "system time is before UNIX_EPOCH"@,
            ToolError::SignerSetup => "failed to initialize HMAC signer"@,
            ToolError::NotJson { body, cause } => "Aliyun response was not JSON: "@ + body@,
            ToolError::RequestFailed { status, response } => "Aliyun API request failed with "@
                + status@ + ": "@ + response@,
            ToolError::Unprintable(_) => "failed to print the response"@,
        }
    }

    /// What the error says of itself.
    pub fn message(&self) -> (message: String)
        ensures
            message@ == self.text(),
    {
        match self {
            ToolError::MissingAccessKeyId => ACCESS_KEY_ID_ENV.to_string().concat(
                " environment variable is required",
            ),
            ToolError::MissingAccessKeySecret => ACCESS_KEY_SECRET_ENV.to_string().concat(
                " environment variable is required",
            ),
            ToolError::NoUrls => "--urls must include at least one URL".to_string(),
            ToolError::PriorityOutOfRange => "--pri must be between 0 and 999".to_string(),
            ToolError::ClockBeforeEpoch(_) => "system time is before UNIX_EPOCH".to_string(),
            ToolError::SignerSetup => "failed to initialize HMAC signer".to_string(),
            ToolError::NotJson { body, cause } => {
                "Aliyun response was not JSON: ".to_string().concat(body.as_str())
            },
            ToolError::RequestFailed { status, response } => {
                "Aliyun API request failed with ".to_string().concat(status.as_str()).concat(
                    ": ",
                ).concat(response.as_str())
            },
            ToolError::Unprintable(_) => "failed to print the response".to_string(),
        }
    }
}

/// What errors say, in full: those that tell of a response show all of it.
pub proof fn law_error_texts(
    body: String,
    json_cause: serde_json::Error,
    clock_cause: std::time::SystemTimeError,
    status: String,
    response: String,
)
    ensures
        ToolError::MissingAccessKeyId.text()
            == "ALIBABA_CLOUD_ACCESS_KEY_ID environment variable is required"@,
        ToolError::MissingAccessKeySecret.text()
            == "ALIBABA_CLOUD_ACCESS_KEY_SECRET environment variable is required"@,
        ToolError::NoUrls.text() == "--urls must include at least one URL"@,
        ToolError::PriorityOutOfRange.text() == "--pri must be between 0 and 999"@,
        ToolError::ClockBeforeEpoch(clock_cause).text() == "system time is before UNIX_EPOCH"@,
        ToolError::SignerSetup.text() == "failed to initialize HMAC signer"@,
        (ToolError::NotJson { body, cause: json_cause }).text()
            == "Aliyun response was not JSON: "@ + body@,
        (ToolError::RequestFailed { status, response }).text()
            == "Aliyun API request failed with "@ + status@ + ": "@ + response@,
        ToolError::Unprintable(json_cause).text() == "failed to print the response"@,
{
    reveal_strlit("ALIBABA_CLOUD_ACCESS_KEY_ID");
    reveal_strlit("ALIBABA_CLOUD_ACCESS_KEY_SECRET");
    reveal_strlit(" environment variable is required");
    reveal_strlit("ALIBABA_CLOUD_ACCESS_KEY_ID environment variable is required");
    reveal_strlit("ALIBABA_CLOUD_ACCESS_KEY_SECRET environment variable is required");
    assert(ToolError::MissingAccessKeyId.text()
        =~= "ALIBABA_CLOUD_ACCESS_KEY_ID environment variable is required"@);
    assert(ToolError::MissingAccessKeySecret.text()
        =~= "ALIBABA_CLOUD_ACCESS_KEY_SECRET environment variable is required"@);
}

} // verus!
