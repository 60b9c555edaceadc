//! The request and response shapes of the HTTP surface. The handlers
//! themselves are the runtime shell's; these are the values they
//! exchange with the services.
use vstd::prelude::*;

verus! {

/// The service status answer.
#[derive(Debug, Clone)]
pub struct ApiResponse {
    pub message: String,
    pub status: String,
    pub timestamp: u64,
}

/// The answer of a mutation endpoint.
#[derive(Debug, Clone, Copy)]
pub struct ActionResponse {
    pub success: bool,
}

/// The answer of the import endpoint.
#[derive(Debug, Clone, Copy)]
pub struct ImportResponse {
    pub success: bool,
    pub inserted: usize,
}

/// A deletion request.
#[derive(Debug, Clone, Copy)]
pub struct DeleteRequest {
    pub id: i32,
}

/// The paging query of the record list.
#[derive(Debug, Clone, Copy)]
pub struct ListQuery {
    pub page: Option<i32>,
    pub size: Option<i32>,
}

/// The statistics query: a scope name and its parameters.
#[derive(Debug, Clone)]
pub struct StatsQuery {
    pub kind: String,
    pub year: i32,
    pub month: Option<u32>,
    pub week: Option<u32>,
}

/// A registration request.
#[derive(Debug, Clone)]
pub struct UserRegisterRequest {
    pub name: String,
    pub password: String,
    pub nickname: String,
}

/// The answer of the account endpoints.
#[derive(Debug, Clone, Copy)]
pub struct UserActionResponse {
    pub success: bool,
}

/// The public account information answer.
#[derive(Debug, Clone)]
pub struct UserInfoResponse {
    pub nickname: String,
    pub avatar: String,
}

/// A login request.
#[derive(Debug, Clone)]
pub struct UserLoginRequest {
    pub name: String,
    pub password: String,
}

/// The answer of the avatar upload.
#[derive(Debug, Clone)]
pub struct AvatarUploadResponse {
    pub success: bool,
    pub avatar: String,
}

} // verus!
