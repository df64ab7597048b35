//! The requests that the API takes, and the client that signs them.

use crate::credentials::Credentials;
use crate::edgescript::{
    edge_function_config, functions_text, law_config_identifies_the_function,
};
use crate::error::ToolError;
use crate::options::{EdgeScriptEnv, EdgeScriptPosition, OnOff, RefreshType};
use crate::params::Params;
use crate::query::lemma_pieces_of_joined;
use crate::reading::pieces;
use crate::signing::{is_set_by_signing, is_signed_request, sign_params};
use crate::text::{join, joined, law_joined, texts};
use vstd::prelude::*;

verus! {

/// The address that requests go to.
pub const CDN_ENDPOINT: &'static str = "https://cdn.aliyuncs.com/";

/// The parameters of a cache refresh.
pub open spec fn refresh_request(urls: Seq<Seq<char>>, refresh_type: RefreshType) -> Map<
    Seq<char>,
    Seq<char>,
> {
    map![
        "Action"@ => "RefreshObjectCaches"@,
        "ObjectPath"@ => joined(urls, "\n"@),
        "ObjectType"@ => refresh_type.api_value(),
    ]
}

/// The parameters of a query for the edge function of a domain.
pub open spec fn query_request(domain: Seq<char>, environment: EdgeScriptEnv) -> Map<
    Seq<char>,
    Seq<char>,
> {
    map![
        "Action"@ => environment.query_action(),
        "DomainName"@ => domain,
        "FunctionNames"@ => "edge_function"@,
    ]
}

/// The parameters that give a domain an edge function in staging.
pub open spec fn push_request(domain: Seq<char>, functions: Seq<char>) -> Map<
    Seq<char>,
    Seq<char>,
> {
    map![
        "Action"@ => "SetCdnDomainStagingConfig"@,
        "DomainName"@ => domain,
        "Functions"@ => functions,
    ]
}

/// The parameters that bring the edge function of a domain from staging to
/// production.
pub open spec fn publish_request(domain: Seq<char>) -> Map<Seq<char>, Seq<char>> {
    map![
        "Action"@ => "PublishStagingConfigToProduction"@,
        "DomainName"@ => domain,
        "FunctionName"@ => "edge_function"@,
    ]
}

/// The parameters that take the edge function of a domain back from staging.
pub open spec fn rollback_request(domain: Seq<char>) -> Map<Seq<char>, Seq<char>> {
    map![
        "Action"@ => "RollbackStagingConfig"@,
        "DomainName"@ => domain,
        "FunctionName"@ => "edge_function"@,
    ]
}

/// The parameters of a cache refresh.
pub fn refresh_params(urls: &[String], refresh_type: &RefreshType) -> (params: Params)
    ensures
        params@ == refresh_request(texts(urls@), *refresh_type),
{
    let mut params = Params::new();
    params.insert("Action".to_string(), "RefreshObjectCaches".to_string());
    params.insert("ObjectPath".to_string(), join(urls, "\n"));
    params.insert("ObjectType".to_string(), refresh_type.as_api_value().to_string());
    params
}

/// The parameters of a query for the edge function of a domain.
pub fn query_params(domain: &str, environment: &EdgeScriptEnv) -> (params: Params)
    ensures
        params@ == query_request(domain@, *environment),
{
    let mut params = Params::new();
    params.insert("Action".to_string(), environment.as_query_action().to_string());
    params.insert("DomainName".to_string(), domain.to_string());
    params.insert("FunctionNames".to_string(), "edge_function".to_string());
    params
}

/// The parameters that give a domain an edge function in staging. The priority
/// is at most 999.
pub fn push_params(
    domain: &str,
    rule: &str,
    name: &str,
    pri: u16,
    pos: &EdgeScriptPosition,
    enable: &OnOff,
) -> (params: Result<Params, ToolError>)
    ensures
        match params {
            Ok(p) => pri <= 999 && p@ == push_request(
                domain@,
                functions_text(*enable, name@, *pos, pri, rule@),
            ),
            Err(ToolError::PriorityOutOfRange) => pri > 999,
            Err(_) => false,
        },
{
    if pri > 999 {
        return Err(ToolError::PriorityOutOfRange);
    }
    let functions = edge_function_config(enable, name, pos, pri, rule);
    let mut params = Params::new();
    params.insert("Action".to_string(), "SetCdnDomainStagingConfig".to_string());
    params.insert("DomainName".to_string(), domain.to_string());
    params.insert("Functions".to_string(), functions);
    Ok(params)
}

/// The parameters that bring the edge function of a domain from staging to
/// production.
pub fn publish_params(domain: &str) -> (params: Params)
    ensures
        params@ == publish_request(domain@),
{
    let mut params = Params::new();
    params.insert("Action".to_string(), "PublishStagingConfigToProduction".to_string());
    params.insert("DomainName".to_string(), domain.to_string());
    params.insert("FunctionName".to_string(), "edge_function".to_string());
    params
}

/// The parameters that take the edge function of a domain back from staging.
pub fn rollback_params(domain: &str) -> (params: Params)
    ensures
        params@ == rollback_request(domain@),
{
    let mut params = Params::new();
    params.insert("Action".to_string(), "RollbackStagingConfig".to_string());
    params.insert("DomainName".to_string(), domain.to_string());
    params.insert("FunctionName".to_string(), "edge_function".to_string());
    params
}

/// A client of the API, which signs requests with its access key.
#[derive(Debug)]
pub struct CdnClient {
    pub credentials: Credentials,
}

impl CdnClient {
    /// A client with an access key.
    pub fn new(credentials: Credentials) -> (client: CdnClient)
        ensures
            client.credentials == credentials,
    {
        CdnClient { credentials }
    }

    /// The query of a request, signed and ready to be sent.
    pub fn call(&self, params: Params) -> (signed: Result<Params, ToolError>)
        ensures
            is_signed_request(signed, params@, self.credentials),
    {
        sign_params(params, &self.credentials)
    }

    /// The query that refreshes URLs in the caches.
    pub fn refresh_object_caches(&self, urls: &[String], refresh_type: &RefreshType) -> (signed:
        Result<Params, ToolError>)
        ensures
            is_signed_request(
                signed,
                refresh_request(texts(urls@), *refresh_type),
                self.credentials,
            ),
    {
        self.call(refresh_params(urls, refresh_type))
    }

    /// The query that reads the edge function of a domain.
    pub fn query_edgescript(&self, domain: &str, environment: &EdgeScriptEnv) -> (signed: Result<
        Params,
        ToolError,
    >)
        ensures
            is_signed_request(signed, query_request(domain@, *environment), self.credentials),
    {
        self.call(query_params(domain, environment))
    }

    /// The query that gives a domain an edge function in staging. The priority
    /// is at most 999.
    pub fn push_edgescript_staging(
        &self,
        domain: &str,
        rule: &str,
        name: &str,
        pri: u16,
        pos: &EdgeScriptPosition,
        enable: &OnOff,
    ) -> (signed: Result<Params, ToolError>)
        ensures
            pri > 999 ==> signed == Err::<Params, ToolError>(ToolError::PriorityOutOfRange),
            pri <= 999 ==> is_signed_request(
                signed,
                push_request(domain@, functions_text(*enable, name@, *pos, pri, rule@)),
                self.credentials,
            ),
    {
        match push_params(domain, rule, name, pri, pos, enable) {
            Ok(params) => self.call(params),
            Err(error) => Err(error),
        }
    }

    /// The query that brings the edge function of a domain from staging to
    /// production.
    pub fn publish_edgescript_staging(&self, domain: &str) -> (signed: Result<Params, ToolError>)
        ensures
            is_signed_request(signed, publish_request(domain@), self.credentials),
    {
        self.call(publish_params(domain))
    }

    /// The query that takes the edge function of a domain back from staging.
    pub fn rollback_edgescript_staging(&self, domain: &str) -> (signed: Result<Params, ToolError>)
        ensures
            is_signed_request(signed, rollback_request(domain@), self.credentials),
    {
        self.call(rollback_params(domain))
    }
}

/// Whether signing leaves all parameters of a request as they are.
pub open spec fn survives_signing(request: Map<Seq<char>, Seq<char>>) -> bool {
    forall|name: Seq<char>| #[trigger] request.contains_key(name) ==> !is_set_by_signing(name)
}

/// No request uses a name that signing sets, so every parameter of a request
/// reaches the API as it is.
pub proof fn law_requests_survive_signing(
    urls: Seq<Seq<char>>,
    refresh_type: RefreshType,
    domain: Seq<char>,
    environment: EdgeScriptEnv,
    functions: Seq<char>,
)
    ensures
        survives_signing(refresh_request(urls, refresh_type)),
        survives_signing(query_request(domain, environment)),
        survives_signing(push_request(domain, functions)),
        survives_signing(publish_request(domain)),
        survives_signing(rollback_request(domain)),
{
    reveal_strlit("Format");
    reveal_strlit("Version");
    reveal_strlit("AccessKeyId");
    reveal_strlit("SignatureMethod");
    reveal_strlit("SignatureVersion");
    reveal_strlit("SignatureNonce");
    reveal_strlit("Timestamp");
    reveal_strlit("Signature");
    reveal_strlit("Action");
    reveal_strlit("ObjectPath");
    reveal_strlit("ObjectType");
    reveal_strlit("DomainName");
    reveal_strlit("FunctionName");
    reveal_strlit("FunctionNames");
    reveal_strlit("Functions");
    assert forall|name: Seq<char>| is_set_by_signing(name) implies {
        &&& name != "Action"@
        &&& name != "ObjectPath"@
        &&& name != "ObjectType"@
        &&& name != "DomainName"@
        &&& name != "FunctionName"@
        &&& name != "FunctionNames"@
        &&& name != "Functions"@
    } by {
        assert(name[0] != 'O' && name[0] != 'D');
        assert("Action"@[1] == 'c' && "Action"@.len() == 6);
        assert("FunctionName"@.len() == 12 && "FunctionNames"@.len() == 13);
        assert("Functions"@.len() == 9);
        assert("Functions"@[0] == 'F');
        assert("AccessKeyId"@.len() == 11 && "Format"@.len() == 6);
    }
}

/// The names of the parameters of requests are different from one another.
proof fn lemma_request_names_differ()
    ensures
        "Action"@ != "ObjectPath"@,
        "Action"@ != "ObjectType"@,
        "ObjectPath"@ != "ObjectType"@,
        "Action"@ != "DomainName"@,
        "Action"@ != "FunctionNames"@,
        "Action"@ != "FunctionName"@,
        "Action"@ != "Functions"@,
        "DomainName"@ != "FunctionNames"@,
        "DomainName"@ != "FunctionName"@,
        "DomainName"@ != "Functions"@,
{
    reveal_strlit("Action");
    reveal_strlit("ObjectPath");
    reveal_strlit("ObjectType");
    reveal_strlit("DomainName");
    reveal_strlit("FunctionName");
    reveal_strlit("FunctionNames");
    reveal_strlit("Functions");
    assert("ObjectPath"@[6] == 'P' && "ObjectType"@[6] == 'T');
    assert("Action"@[0] == 'A' && "ObjectPath"@[0] == 'O' && "ObjectType"@[0] == 'O');
    assert("DomainName"@[0] == 'D' && "FunctionName"@[0] == 'F');
    assert("FunctionNames"@[0] == 'F' && "Functions"@[0] == 'F');
}

/// What a cache refresh asks for: its action, its type by name, and its URLs, a
/// line for each. One URL is the whole path as it is, and one more URL stands
/// behind the others on a line of its own.
pub proof fn law_refresh_request(
    urls: Seq<Seq<char>>,
    url: Seq<char>,
    refresh_type: RefreshType,
)
    ensures
        ({
            let request = refresh_request(urls, refresh_type);
            &&& forall|name: Seq<char>| #[trigger]
                request.contains_key(name) <==> name == "Action"@ || name == "ObjectPath"@ || name
                    == "ObjectType"@
            &&& request["Action"@] == "RefreshObjectCaches"@
            &&& refresh_type is File ==> request["ObjectType"@] == "file"@
            &&& refresh_type is Directory ==> request["ObjectType"@] == "directory"@
            &&& urls.len() == 0 ==> request["ObjectPath"@] == Seq::<char>::empty()
        }),
        refresh_request(seq![url], refresh_type)["ObjectPath"@] == url,
        urls.len() > 0 ==> refresh_request(urls.push(url), refresh_type)["ObjectPath"@]
            == refresh_request(urls, refresh_type)["ObjectPath"@] + seq!['\n'] + url,
{
    lemma_request_names_differ();
    reveal_strlit("\n");
    assert("\n"@ =~= seq!['\n']);
    law_joined(urls, url, "\n"@);
    if urls.len() == 0 {
        assert(urls =~= Seq::empty());
    }
}

/// The path of a cache refresh, cut at its line ends, gives the URLs back.
pub proof fn law_refreshed_urls_are_read_back(urls: Seq<Seq<char>>, refresh_type: RefreshType)
    requires
        urls.len() > 0,
        forall|i: int| 0 <= i < urls.len() ==> !(#[trigger] urls[i]).contains('\n'),
    ensures
        pieces(refresh_request(urls, refresh_type)["ObjectPath"@], '\n') == urls,
{
    lemma_request_names_differ();
    reveal_strlit("\n");
    assert("\n"@ =~= seq!['\n']);
    lemma_pieces_of_joined(urls, '\n');
}

/// Refreshes of files and of directories are different requests.
pub proof fn law_refresh_types_differ(a: Seq<Seq<char>>, b: Seq<Seq<char>>)
    ensures
        refresh_request(a, RefreshType::File) != refresh_request(b, RefreshType::Directory),
{
    law_refresh_request(a, Seq::empty(), RefreshType::File);
    law_refresh_request(b, Seq::empty(), RefreshType::Directory);
    reveal_strlit("file");
    reveal_strlit("directory");
    assert("file"@.len() == 4 && "directory"@.len() == 9);
}

/// What a query asks for: the edge function of the whole domain, by the action
/// of its environment.
pub proof fn law_query_request(domain: Seq<char>, environment: EdgeScriptEnv)
    ensures
        ({
            let request = query_request(domain, environment);
            &&& forall|name: Seq<char>| #[trigger]
                request.contains_key(name) <==> name == "Action"@ || name == "DomainName"@ || name
                    == "FunctionNames"@
            &&& environment is Production ==> request["Action"@] == "DescribeCdnDomainConfigs"@
            &&& environment is Staging ==> request["Action"@] == "DescribeCdnDomainStagingConfig"@
            &&& request["DomainName"@] == domain
            &&& request["FunctionNames"@] == "edge_function"@
        }),
{
    lemma_request_names_differ();
}

/// What a push asks for: the domain and the configuration, both whole.
pub proof fn law_push_request(domain: Seq<char>, functions: Seq<char>)
    ensures
        ({
            let request = push_request(domain, functions);
            &&& forall|name: Seq<char>| #[trigger]
                request.contains_key(name) <==> name == "Action"@ || name == "DomainName"@ || name
                    == "Functions"@
            &&& request["Action"@] == "SetCdnDomainStagingConfig"@
            &&& request["DomainName"@] == domain
            &&& request["Functions"@] == functions
        }),
{
    lemma_request_names_differ();
}

/// A push identifies what is pushed: no two pushes of different functions, or to
/// different domains, are the same request.
pub proof fn law_push_identifies_the_function(
    domain: Seq<char>,
    enable: OnOff,
    name: Seq<char>,
    pos: EdgeScriptPosition,
    pri: u16,
    rule: Seq<char>,
    other_domain: Seq<char>,
    other_enable: OnOff,
    other_name: Seq<char>,
    other_pos: EdgeScriptPosition,
    other_pri: u16,
    other_rule: Seq<char>,
)
    requires
        push_request(domain, functions_text(enable, name, pos, pri, rule)) == push_request(
            other_domain,
            functions_text(other_enable, other_name, other_pos, other_pri, other_rule),
        ),
    ensures
        domain == other_domain,
        enable == other_enable,
        name == other_name,
        pos == other_pos,
        pri == other_pri,
        rule == other_rule,
{
    let functions = functions_text(enable, name, pos, pri, rule);
    let other = functions_text(other_enable, other_name, other_pos, other_pri, other_rule);
    law_push_request(domain, functions);
    law_push_request(other_domain, other);
    law_config_identifies_the_function(
        enable,
        name,
        pos,
        pri,
        rule,
        other_enable,
        other_name,
        other_pos,
        other_pri,
        other_rule,
    );
}

/// What publishing and taking back ask for: the edge function of the whole
/// domain.
pub proof fn law_publish_and_rollback_requests(domain: Seq<char>)
    ensures
        ({
            let publish = publish_request(domain);
            let rollback = rollback_request(domain);
            &&& forall|name: Seq<char>| #[trigger]
                publish.contains_key(name) <==> name == "Action"@ || name == "DomainName"@ || name
                    == "FunctionName"@
            &&& forall|name: Seq<char>| #[trigger]
                rollback.contains_key(name) <==> name == "Action"@ || name == "DomainName"@ || name
                    == "FunctionName"@
            &&& publish["Action"@] == "PublishStagingConfigToProduction"@
            &&& rollback["Action"@] == "RollbackStagingConfig"@
            &&& publish["DomainName"@] == domain
            &&& rollback["DomainName"@] == domain
            &&& publish["FunctionName"@] == "edge_function"@
            &&& rollback["FunctionName"@] == "edge_function"@
        }),
{
    lemma_request_names_differ();
}

} // verus!
