//! Request and response shapes of the surrounding HTTP surface, and the
//! uniform response envelope. The transport layer converts these to and from
//! its wire encodings; the library only states what they hold.

use vstd::prelude::*;

use crate::model::{Provider, ProviderModel, Session};

verus! {

/// A provider together with the models it offers.
#[derive(Debug)]
pub struct ProviderWithModels {
    pub provider: Provider,
    pub models: Vec<ProviderModel>,
}

/// The providers a user owns, each with its models.
#[derive(Debug)]
pub struct ProviderWithModelsListResponse {
    pub items: Vec<ProviderWithModels>,
}

/// The uniform response envelope: either data with an optional message, or
/// an error text.
#[derive(Debug)]
pub struct ApiResponse<T> {
    pub success: bool,
    pub data: Option<T>,
    pub message: Option<String>,
    pub error: Option<String>,
}

impl<T> ApiResponse<T> {
    /// A successful envelope around `data`.
    pub fn success(data: Option<T>, message: Option<String>) -> (r: Self)
        ensures
            r.success == true,
            r.data == data,
            r.message == message,
            r.error is None,
    {
        ApiResponse { success: true, data, message, error: None }
    }
}

impl ApiResponse<()> {
    /// A failed envelope around an error text.
    pub fn failed(error: Option<String>) -> (r: Self)
        ensures
            r.success == false,
            r.data is None,
            r.message is None,
            r.error == error,
    {
        ApiResponse { success: false, data: None, message: None, error }
    }
}

/// Where the server listens.
#[derive(Debug)]
pub struct ServerConfig {
    pub host: String,
    pub port: u16,
}

/// A registration request: credentials and a display name.
#[derive(Debug)]
pub struct RegisterRequest {
    pub email: String,
    pub name: String,
    pub password: String,
}

/// A login request.
#[derive(Debug)]
pub struct LoginRequest {
    pub email: String,
    pub password: String,
}

/// A profile update; absent fields stay unchanged.
#[derive(Debug)]
pub struct UpdateProfileRequest {
    pub name: Option<String>,
}

/// The sessions a user owns.
#[derive(Debug)]
pub struct ConversationSessionsResponse {
    pub items: Vec<Session>,
}

/// A request for a new, empty conversation; it carries nothing.
#[derive(Debug)]
pub struct CreateConversationRequest {}

/// A request to register a model under a provider.
#[derive(Debug)]
pub struct CreateProviderModelRequest {
    pub model_id: String,
    pub name: String,
}

/// A request to change a registered model; absent fields stay unchanged.
#[derive(Debug)]
pub struct UpdateProviderModelRequest {
    pub model_id: Option<String>,
    pub name: Option<String>,
}

} // verus!
