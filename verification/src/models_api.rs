//! The ListAvailableModels call: which token it carries, which region and URL it goes to,
//! which headers it sends, and how its status is judged.

use vstd::prelude::*;
use vstd::string::StringSliceAdditionalSpecFns;
use vstd::utf8::encode_utf8;
use crate::text::{chars_of, text_eq};

verus! {

/// The API host for the `us-east-1` region.
pub const KIRO_API_BASE: &'static str = "https://codewhisperer.us-east-1.amazonaws.com";

/// A byte that URL encoding leaves as it is: an ASCII letter or digit, `-`, `.`, `_` or `~`.
pub open spec fn is_unreserved(b: u8) -> bool {
    ||| (48 <= b && b <= 57)
    ||| (65 <= b && b <= 90)
    ||| (97 <= b && b <= 122)
    ||| b == 45
    ||| b == 46
    ||| b == 95
    ||| b == 126
}

/// The sixteen upper-case hexadecimal digits, in order of value.
pub open spec fn upper_hex_digits() -> Seq<char> {
    seq!['0', '1', '2', '3', '4', '5', '6', '7', '8', '9', 'A', 'B', 'C', 'D', 'E', 'F']
}

/// Percent-encoding of a byte string: unreserved bytes stay, every other byte becomes `%`
/// and two upper-case hex digits.
pub open spec fn percent_encoded(bytes: Seq<u8>) -> Seq<char>
    decreases bytes.len(),
{
    if bytes.len() == 0 {
        Seq::empty()
    } else {
        let b = bytes.last();
        percent_encoded(bytes.drop_last()) + if is_unreserved(b) {
            seq![b as char]
        } else {
            seq!['%', upper_hex_digits()[(b / 16) as int], upper_hex_digits()[(b % 16) as int]]
        }
    }
}

/// Calls `urlencoding::encode`, which percent-encodes every byte of the UTF-8 text except
/// ASCII letters, digits and `-`, `.`, `_`, `~`, with upper-case hex digits.
#[verifier::external_body]
fn url_encode(s: &str) -> (r: String)
    ensures
        r@ == percent_encoded(s.spec_bytes()),
{
    urlencoding::encode(s).into_owned()
}

/// `i` is the first position of `c` in `s`.
pub open spec fn is_first_index(s: Seq<char>, c: char, i: int) -> bool {
    &&& 0 <= i < s.len()
    &&& s[i] == c
    &&& forall|j: int| 0 <= j < i ==> s[j] != c
}

/// The field at index `n` of `s` split at `sep` (as `str::split(sep).nth(n)`).
pub open spec fn nth_field(s: Seq<char>, sep: char, n: nat) -> Option<Seq<char>>
    decreases n,
{
    if exists|i: int| is_first_index(s, sep, i) {
        let i = choose|i: int| is_first_index(s, sep, i);
        if n == 0 {
            Some(s.take(i))
        } else {
            nth_field(s.skip(i + 1), sep, (n - 1) as nat)
        }
    } else if n == 0 {
        Some(s)
    } else {
        None
    }
}

/// The first position of `c` in `s`.
fn first_index_of(s: &str, c: char) -> (r: Option<usize>)
    ensures
        match r {
            Some(i) => is_first_index(s@, c, i as int),
            None => forall|j: int| 0 <= j < s@.len() ==> s@[j] != c,
        },
{
    let cs = chars_of(s);
    let n = cs.len();
    let mut i: usize = 0;
    while i < n
        invariant
            cs@ == s@,
            n == cs@.len(),
            i <= n,
            forall|j: int| 0 <= j < i ==> s@[j] != c,
        decreases n - i,
    {
        if cs[i] == c {
            return Some(i);
        }
        i = i + 1;
    }
    None
}

/// The field at index `n` of `s` split at `sep`.
fn nth_field_of(s: &str, sep: char, n: usize) -> (r: Option<String>)
    ensures
        match r {
            Some(f) => nth_field(s@, sep, n as nat) == Some(f@),
            None => nth_field(s@, sep, n as nat) is None,
        },
    decreases n,
{
    match first_index_of(s, sep) {
        Some(i) => {
            assert(forall|c: int| is_first_index(s@, sep, c) ==> c == i);
            let len = s.unicode_len();
            if n == 0 {
                let f = s.substring_char(0, i);
                assert(f@ =~= s@.take(i as int));
                Some(f.to_owned())
            } else {
                let rest = s.substring_char(i + 1, len);
                assert(rest@ =~= s@.skip(i as int + 1));
                nth_field_of(rest, sep, n - 1)
            }
        },
        None => {
            assert(forall|c: int| !is_first_index(s@, sep, c));
            if n == 0 {
                Some(s.to_owned())
            } else {
                None
            }
        },
    }
}

/// The credential fields a model listing reads.
pub struct ModelsApiCredential {
    /// Whether the credential authenticates with a Kiro API key rather than OAuth.
    pub is_api_key: bool,
    pub kiro_api_key: Option<String>,
    pub access_token: Option<String>,
    pub profile_arn: Option<String>,
    pub region: Option<String>,
    pub api_region: Option<String>,
    pub machine_id: Option<String>,
}

/// The global settings a model listing reads.
pub struct ModelsApiConfig {
    pub region: String,
    pub api_region: Option<String>,
    pub machine_id: Option<String>,
    pub system_version: String,
    pub node_version: String,
    pub kiro_version: String,
}

/// The view of an optional text.
pub open spec fn opt_view(o: Option<String>) -> Option<Seq<char>> {
    match o {
        Some(s) => Some(s@),
        None => None,
    }
}

/// The global API region: the configured API region, else the configured region, else
/// `us-east-1` when that is empty.
pub open spec fn config_api_region(config: ModelsApiConfig) -> Seq<char> {
    match opt_view(config.api_region) {
        Some(r) => r,
        None => if config.region@.len() > 0 {
            config.region@
        } else {
            "us-east-1"@
        },
    }
}

/// The API region of an API-key credential: its API region, else its region, else the
/// global API region.
pub open spec fn credential_api_region(cred: ModelsApiCredential, config: ModelsApiConfig) -> Seq<char> {
    match opt_view(cred.api_region) {
        Some(r) => r,
        None => match opt_view(cred.region) {
            Some(r) => r,
            None => config_api_region(config),
        },
    }
}

/// The region a model listing goes to: for an API-key credential its API region; for an
/// OAuth credential the region field of its profile ARN when present and non-empty, else its
/// region, else the global API region.
pub open spec fn listing_region(cred: ModelsApiCredential, config: ModelsApiConfig) -> Seq<char> {
    if cred.is_api_key {
        credential_api_region(cred, config)
    } else {
        let from_arn = match opt_view(cred.profile_arn) {
            Some(arn) => match nth_field(arn, ':', 3) {
                Some(r) => if r.len() > 0 {
                    Some(r)
                } else {
                    None
                },
                None => None,
            },
            None => None,
        };
        match from_arn {
            Some(r) => r,
            None => match opt_view(cred.region) {
                Some(r) => r,
                None => config_api_region(config),
            },
        }
    }
}

/// The order in which a listing picks its region. An API-key credential takes its own API
/// region, else its own region, else the global API region, else the global region when that
/// is non-empty, else `us-east-1`. An OAuth credential without a profile ARN takes its own
/// region, else the same global fallbacks; one whose profile ARN has a non-empty region field
/// takes that field.
pub proof fn lemma_listing_region_precedence(cred: ModelsApiCredential, config: ModelsApiConfig)
    ensures
        cred.is_api_key && cred.api_region is Some
            ==> listing_region(cred, config) == cred.api_region->0@,
        cred.is_api_key && cred.api_region is None && cred.region is Some
            ==> listing_region(cred, config) == cred.region->0@,
        !cred.is_api_key && cred.profile_arn is None && cred.region is Some
            ==> listing_region(cred, config) == cred.region->0@,
        ({
            &&& !cred.is_api_key
            &&& cred.profile_arn is Some
            &&& nth_field(cred.profile_arn->0@, ':', 3) is Some
            &&& nth_field(cred.profile_arn->0@, ':', 3)->0.len() > 0
        }) ==> listing_region(cred, config) == nth_field(cred.profile_arn->0@, ':', 3)->0,
        ({
            &&& cred.region is None
            &&& if cred.is_api_key { cred.api_region is None } else { cred.profile_arn is None }
        }) ==> {
            &&& config.api_region is Some ==> listing_region(cred, config) == config.api_region->0@
            &&& config.api_region is None && config.region@.len() > 0 ==> listing_region(cred, config) == config.region@
            &&& config.api_region is None && config.region@.len() == 0 ==> listing_region(cred, config) == "us-east-1"@
        },
{
}

/// The API host for a region: the fixed host for `us-east-1`, `https://q.{region}.amazonaws.com`
/// for any other.
pub open spec fn api_base_for(region: Seq<char>) -> Seq<char> {
    if region == "us-east-1"@ {
        "https://codewhisperer.us-east-1.amazonaws.com"@
    } else {
        "https://q."@ + region + ".amazonaws.com"@
    }
}

/// The profile part of the listing URL: the percent-encoded profile ARN of an OAuth
/// credential that has one, empty otherwise.
pub open spec fn profile_arn_part(cred: ModelsApiCredential) -> Seq<char> {
    if cred.is_api_key {
        Seq::empty()
    } else {
        match cred.profile_arn {
            Some(arn) => "&profileArn="@ + percent_encoded(encode_utf8(arn@)),
            None => Seq::empty(),
        }
    }
}

/// The listing URL for an API host and profile part.
pub open spec fn listing_url(api_base: Seq<char>, profile_part: Seq<char>) -> Seq<char> {
    api_base + "/ListAvailableModels?origin=AI_EDITOR&maxResults=50"@ + profile_part
}

/// The machine id sent in the user agents: the credential's, else the global one, else empty.
pub open spec fn agent_machine_id(cred: ModelsApiCredential, config: ModelsApiConfig) -> Seq<char> {
    match opt_view(cred.machine_id) {
        Some(m) => m,
        None => match opt_view(config.machine_id) {
            Some(m) => m,
            None => Seq::empty(),
        },
    }
}

/// The `User-Agent` header of a listing.
pub open spec fn user_agent_for(config: ModelsApiConfig, machine_id: Seq<char>) -> Seq<char> {
    "aws-sdk-js/1.0.0 ua/2.1 os/"@ + config.system_version@ + " lang/js md/nodejs#"@ + config.node_version@
        + " api/codewhispererruntime#1.0.0 m/N,E KiroIDE-"@ + config.kiro_version@ + "-"@ + machine_id
}

/// The `x-amz-user-agent` header of a listing.
pub open spec fn amz_user_agent_for(config: ModelsApiConfig, machine_id: Seq<char>) -> Seq<char> {
    "aws-sdk-js/1.0.0 KiroIDE-"@ + config.kiro_version@ + "-"@ + machine_id
}

/// Why a model listing could not be made or failed.
#[derive(Debug)]
pub enum ModelsApiError {
    /// An API-key credential without its API key.
    MissingApiKey,
    /// An OAuth credential without an access token.
    MissingAccessToken,
    /// The API answered with a status outside 200..=299.
    RequestFailed { status: u16, body: String },
}

/// Everything a model listing sends: a GET of `url` with `headers`, in order.
pub struct ListModelsRequest {
    pub url: String,
    pub region: String,
    pub headers: Vec<(String, String)>,
}

/// The views of a list of (name, value) headers.
pub open spec fn headers_view(v: Seq<(String, String)>) -> Seq<(Seq<char>, Seq<char>)> {
    v.map_values(|h: (String, String)| (h.0@, h.1@))
}

/// The headers of a listing carrying `token`: JSON accepted, the two user agents, the
/// opt-out flag and the bearer token, and for an API-key credential `tokentype: API_KEY`.
pub open spec fn listing_headers(cred: ModelsApiCredential, config: ModelsApiConfig, token: Seq<char>) -> Seq<(Seq<char>, Seq<char>)> {
    let machine_id = agent_machine_id(cred, config);
    let base = seq![
        ("Accept"@, "application/json"@),
        ("User-Agent"@, user_agent_for(config, machine_id)),
        ("x-amz-user-agent"@, amz_user_agent_for(config, machine_id)),
        ("x-amzn-codewhisperer-optout"@, "true"@),
        ("Authorization"@, "Bearer "@ + token),
    ];
    if cred.is_api_key {
        base.push(("tokentype"@, "API_KEY"@))
    } else {
        base
    }
}

/// The token a listing carries, or why there is none.
pub open spec fn listing_token(cred: ModelsApiCredential) -> Result<Seq<char>, ()> {
    if cred.is_api_key {
        match opt_view(cred.kiro_api_key) {
            Some(k) => Ok(k),
            None => Err(()),
        }
    } else {
        match opt_view(cred.access_token) {
            Some(t) => Ok(t),
            None => Err(()),
        }
    }
}

/// A copy of an optional text.
fn clone_opt(o: &Option<String>) -> (r: Option<String>)
    ensures
        opt_view(r) == opt_view(*o),
{
    match o {
        Some(s) => Some(s.clone()),
        None => None,
    }
}

/// The global API region.
fn config_api_region_of(config: &ModelsApiConfig) -> (r: String)
    ensures
        r@ == config_api_region(*config),
{
    match &config.api_region {
        Some(r) => r.clone(),
        None => if config.region.unicode_len() > 0 {
            config.region.clone()
        } else {
            String::from_str("us-east-1")
        },
    }
}

/// The region a model listing goes to.
pub fn region_for_listing(cred: &ModelsApiCredential, config: &ModelsApiConfig) -> (r: String)
    ensures
        r@ == listing_region(*cred, *config),
{
    if cred.is_api_key {
        match &cred.api_region {
            Some(r) => r.clone(),
            None => match &cred.region {
                Some(r) => r.clone(),
                None => config_api_region_of(config),
            },
        }
    } else {
        let from_arn = match &cred.profile_arn {
            Some(arn) => match nth_field_of(arn.as_str(), ':', 3) {
                Some(r) => if r.unicode_len() > 0 {
                    Some(r)
                } else {
                    None
                },
                None => None,
            },
            None => None,
        };
        match from_arn {
            Some(r) => r,
            None => match &cred.region {
                Some(r) => r.clone(),
                None => config_api_region_of(config),
            },
        }
    }
}

/// The API host for a region.
pub fn api_base(region: &str) -> (r: String)
    ensures
        r@ == api_base_for(region@),
{
    if text_eq(region, "us-east-1") {
        String::from_str(KIRO_API_BASE)
    } else {
        let mut s = String::from_str("https://q.");
        s.append(region);
        s.append(".amazonaws.com");
        s
    }
}

/// The profile part of the listing URL for a credential.
pub fn profile_arn_param(cred: &ModelsApiCredential) -> (r: String)
    ensures
        r@ == profile_arn_part(*cred),
{
    if cred.is_api_key {
        String::new()
    } else {
        match &cred.profile_arn {
            Some(arn) => {
                let mut s = String::from_str("&profileArn=");
                let encoded = url_encode(arn.as_str());
                s.append(encoded.as_str());
                s
            },
            None => String::new(),
        }
    }
}

/// The listing URL for an API host and profile part.
pub fn list_models_url(api_base: &str, profile_part: &str) -> (r: String)
    ensures
        r@ == listing_url(api_base@, profile_part@),
{
    let mut s = String::from_str(api_base);
    s.append("/ListAvailableModels?origin=AI_EDITOR&maxResults=50");
    s.append(profile_part);
    s
}

/// Builds the ListAvailableModels request for a credential: fails when the credential lacks
/// its token (the API key of an API-key credential, the access token of an OAuth one).
pub fn build_list_models_request(cred: &ModelsApiCredential, config: &ModelsApiConfig) -> (r: Result<ListModelsRequest, ModelsApiError>)
    ensures
        match r {
            Ok(req) => {
                &&& listing_token(*cred) matches Ok(token)
                &&& headers_view(req.headers@) == listing_headers(*cred, *config, token)
                &&& req.region@ == listing_region(*cred, *config)
                &&& req.url@ == listing_url(api_base_for(listing_region(*cred, *config)), profile_arn_part(*cred))
            },
            Err(e) => {
                &&& listing_token(*cred) is Err
                &&& if cred.is_api_key {
                    e is MissingApiKey
                } else {
                    e is MissingAccessToken
                }
            },
        },
{
    let token = if cred.is_api_key {
        match &cred.kiro_api_key {
            Some(k) => k.clone(),
            None => return Err(ModelsApiError::MissingApiKey),
        }
    } else {
        match &cred.access_token {
            Some(t) => t.clone(),
            None => return Err(ModelsApiError::MissingAccessToken),
        }
    };
    let profile_part = profile_arn_param(cred);
    let region = region_for_listing(cred, config);
    let base = api_base(region.as_str());
    let url = list_models_url(base.as_str(), profile_part.as_str());
    let machine_id = match &cred.machine_id {
        Some(m) => m.clone(),
        None => match &config.machine_id {
            Some(m) => m.clone(),
            None => String::new(),
        },
    };
    let mut user_agent = String::from_str("aws-sdk-js/1.0.0 ua/2.1 os/");
    user_agent.append(config.system_version.as_str());
    user_agent.append(" lang/js md/nodejs#");
    user_agent.append(config.node_version.as_str());
    user_agent.append(" api/codewhispererruntime#1.0.0 m/N,E KiroIDE-");
    user_agent.append(config.kiro_version.as_str());
    user_agent.append("-");
    user_agent.append(machine_id.as_str());
    let mut amz_user_agent = String::from_str("aws-sdk-js/1.0.0 KiroIDE-");
    amz_user_agent.append(config.kiro_version.as_str());
    amz_user_agent.append("-");
    amz_user_agent.append(machine_id.as_str());
    let mut authorization = String::from_str("Bearer ");
    authorization.append(token.as_str());
    let mut headers: Vec<(String, String)> = Vec::new();
    headers.push((String::from_str("Accept"), String::from_str("application/json")));
    headers.push((String::from_str("User-Agent"), user_agent));
    headers.push((String::from_str("x-amz-user-agent"), amz_user_agent));
    headers.push((String::from_str("x-amzn-codewhisperer-optout"), String::from_str("true")));
    headers.push((String::from_str("Authorization"), authorization));
    if cred.is_api_key {
        headers.push((String::from_str("tokentype"), String::from_str("API_KEY")));
    }
    assert(headers_view(headers@) =~= listing_headers(*cred, *config, token@));
    Ok(ListModelsRequest { url, region, headers })
}

/// A status the listing accepts: 200 to 299.
pub open spec fn is_success_status(status: u16) -> bool {
    200 <= status && status <= 299
}

/// Judges the listing's answer: success statuses pass, any other fails with the status and
/// the body it came with.
pub fn check_list_models_status(status: u16, body: String) -> (r: Result<(), ModelsApiError>)
    ensures
        match r {
            Ok(()) => is_success_status(status),
            Err(e) => {
                &&& !is_success_status(status)
                &&& e matches ModelsApiError::RequestFailed { status: s, body: b }
                &&& s == status
                &&& b@ == body@
            },
        },
{
    if 200 <= status && status <= 299 {
        Ok(())
    } else {
        Err(ModelsApiError::RequestFailed { status, body })
    }
}

} // verus!
