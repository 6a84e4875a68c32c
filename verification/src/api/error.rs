//! Errors as the HTTP interface reports them.
use vstd::prelude::*;
use vstd::string::*;

use crate::error::FeriteError;
use crate::text;
use crate::text::contains_text;

verus! {

/// An error on its way to a client.
#[derive(Debug)]
pub struct ApiError(pub FeriteError);

impl From<FeriteError> for ApiError {
    fn from(e: FeriteError) -> (r: ApiError) {
        ApiError(e)
    }
}

impl vstd::std_specs::convert::FromSpecImpl<FeriteError> for ApiError {
    open spec fn obeys_from_spec() -> bool {
        true
    }

    open spec fn from_spec(e: FeriteError) -> ApiError {
        ApiError(e)
    }
}

/// The status of the response for an error.
pub open spec fn status_of(e: FeriteError) -> u16 {
    match e {
        FeriteError::Unauthorized => 401,
        FeriteError::Config(_) => 400,
        FeriteError::NotFound(_) => 404,
        FeriteError::Update(_) => 409,
        FeriteError::RateLimited => 429,
        _ => 500,
    }
}

/// The status of the response for an error.
pub fn api_error_status(error: &FeriteError) -> (r: u16)
    ensures
        r == status_of(*error),
{
    match error {
        FeriteError::Unauthorized => 401,
        FeriteError::Config(_) => 400,
        FeriteError::NotFound(_) => 404,
        FeriteError::Update(_) => 409,
        FeriteError::RateLimited => 429,
        _ => 500,
    }
}

/// What sort of error it is.
pub open spec fn kind_of(e: FeriteError) -> Seq<char> {
    match e {
        FeriteError::Unauthorized => "unauthorized"@,
        FeriteError::Config(_) => "config"@,
        FeriteError::NotFound(_) => "not_found"@,
        FeriteError::Update(_) => "update"@,
        _ => "internal"@,
    }
}

/// What sort of error it is.
pub fn api_error_kind(error: &FeriteError) -> (r: &'static str)
    ensures
        r@ == kind_of(*error),
{
    match error {
        FeriteError::Unauthorized => "unauthorized",
        FeriteError::Config(_) => "config",
        FeriteError::NotFound(_) => "not_found",
        FeriteError::Update(_) => "update",
        _ => "internal",
    }
}

/// The code by which clients recognise a message about settings or requests.
pub open spec fn config_code(m: Seq<char>) -> Seq<char> {
    if m == "password cannot be empty; use null to disable password auth"@ {
        "password_empty"@
    } else if "password hash failed:"@.is_prefix_of(m) {
        "password_hash_failed"@
    } else if m == "api_key cannot be empty; use null to disable key auth"@ {
        "api_key_empty"@
    } else if "dns_min_ttl must be between"@.is_prefix_of(m) {
        "dns_min_ttl_range"@
    } else if "dns_max_ttl must be between"@.is_prefix_of(m) {
        "dns_max_ttl_range"@
    } else if "dns_min_ttl ("@.is_prefix_of(m) {
        "dns_ttl_order"@
    } else if "invalid dns_bind_addr:"@.is_prefix_of(m) {
        "invalid_dns_bind_addr"@
    } else if m == "blocklist_decision_cache_size must be greater than 0"@ {
        "blocklist_cache_size"@
    } else if "invalid api_bind_addr:"@.is_prefix_of(m) {
        "invalid_api_bind_addr"@
    } else if m == "upstream list cannot be empty"@ {
        "upstream_empty"@
    } else if "invalid blocklist_client_bypass entry:"@.is_prefix_of(m) {
        "invalid_client_bypass"@
    } else if m == "name must not be empty"@ {
        "client_name_empty"@
    } else if "invalid IP:"@.is_prefix_of(m) {
        "invalid_ip"@
    } else if "invalid MAC:"@.is_prefix_of(m) {
        "invalid_mac"@
    } else if m == "provide exactly one of 'ip' or 'mac'"@ {
        "client_identity_required"@
    } else if contains_text(m, "is neither a valid IP nor a MAC address"@) {
        "invalid_client_key"@
    } else {
        "config"@
    }
}

/// The code by which clients recognise a message about settings or requests.
pub fn config_error_code(message: &str) -> (r: &'static str)
    ensures
        r@ == config_code(message@),
{
    let cs = text::chars_of(message);
    let m = cs.as_slice();
    if text::is_text(m, "password cannot be empty; use null to disable password auth") {
        "password_empty"
    } else if text::starts_with(m, "password hash failed:") {
        "password_hash_failed"
    } else if text::is_text(m, "api_key cannot be empty; use null to disable key auth") {
        "api_key_empty"
    } else if text::starts_with(m, "dns_min_ttl must be between") {
        "dns_min_ttl_range"
    } else if text::starts_with(m, "dns_max_ttl must be between") {
        "dns_max_ttl_range"
    } else if text::starts_with(m, "dns_min_ttl (") {
        "dns_ttl_order"
    } else if text::starts_with(m, "invalid dns_bind_addr:") {
        "invalid_dns_bind_addr"
    } else if text::is_text(m, "blocklist_decision_cache_size must be greater than 0") {
        "blocklist_cache_size"
    } else if text::starts_with(m, "invalid api_bind_addr:") {
        "invalid_api_bind_addr"
    } else if text::is_text(m, "upstream list cannot be empty") {
        "upstream_empty"
    } else if text::starts_with(m, "invalid blocklist_client_bypass entry:") {
        "invalid_client_bypass"
    } else if text::is_text(m, "name must not be empty") {
        "client_name_empty"
    } else if text::starts_with(m, "invalid IP:") {
        "invalid_ip"
    } else if text::starts_with(m, "invalid MAC:") {
        "invalid_mac"
    } else if text::is_text(m, "provide exactly one of 'ip' or 'mac'") {
        "client_identity_required"
    } else if text::contains(m, "is neither a valid IP nor a MAC address") {
        "invalid_client_key"
    } else {
        "config"
    }
}

/// The code by which clients recognise a message about updates.
pub open spec fn update_code(m: Seq<char>) -> Seq<char> {
    if "web UI v"@.is_prefix_of(m) && contains_text(m, "requires server"@) {
        "web_update_incompatible"@
    } else {
        "update"@
    }
}

/// The code by which clients recognise a message about updates.
pub fn update_error_code(message: &str) -> (r: &'static str)
    ensures
        r@ == update_code(message@),
{
    let cs = text::chars_of(message);
    if text::starts_with(cs.as_slice(), "web UI v") && text::contains(cs.as_slice(), "requires server") {
        "web_update_incompatible"
    } else {
        "update"
    }
}

/// The code by which clients recognise an error.
pub open spec fn code_of(e: FeriteError) -> Seq<char> {
    match e {
        FeriteError::Unauthorized => "unauthorized"@,
        FeriteError::Config(m) => config_code(m@),
        FeriteError::NotFound(_) => "not_found"@,
        FeriteError::Update(m) => update_code(m@),
        _ => "internal"@,
    }
}

/// The code by which clients recognise an error.
pub fn api_error_code(error: &FeriteError) -> (r: &'static str)
    ensures
        r@ == code_of(*error),
{
    match error {
        FeriteError::Unauthorized => "unauthorized",
        FeriteError::Config(message) => config_error_code(message.as_str()),
        FeriteError::NotFound(_) => "not_found",
        FeriteError::Update(message) => update_error_code(message.as_str()),
        _ => "internal",
    }
}

/// The details of an error: its message where it has one of its own, else how it is
/// shown.
pub open spec fn details_of(e: FeriteError, shown: Seq<char>) -> Seq<char> {
    match e {
        FeriteError::Config(m) => m@,
        FeriteError::NotFound(m) => m@,
        FeriteError::Update(m) => m@,
        _ => shown,
    }
}

/// The details of an error that is shown in the given way.
pub fn api_error_details(error: &FeriteError, shown: &str) -> (r: String)
    ensures
        r@ == details_of(*error, shown@),
{
    match error {
        FeriteError::Config(m) => m.clone(),
        FeriteError::NotFound(m) => m.clone(),
        FeriteError::Update(m) => m.clone(),
        _ => shown.to_string(),
    }
}

}
