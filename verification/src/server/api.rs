//! The REST API, under `/api/v1`. The web console is built on it, so anything
//! the console does, a script can.
//!
//! Two ways to be someone:
//!
//! * `Authorization: Bearer nht_…`: an API token, for scripts.
//! * The `nearhand_session` cookie that `POST /login` sets, for the console.
//!   `HttpOnly`, `Secure`, `SameSite=Strict`; requests that change anything
//!   with it must also come from this server's own origin, if the browser
//!   says where they come from.
//!
//! Errors come with a fitting status; signing in without a needed TOTP code
//! also says so.
//!
//! Every change goes in the audit log, with who made it and from where; so do
//! sign-ins, failed ones included.

use super::accounts::{
    api_prefix, fits, hash_of, internal, lemma_api_tokens_stand_for_accounts,
    lemma_sessions_stand_for_accounts, login_prefix, noted, other_logins, session_at, token_at,
    Accounts, Record, Refused, TokenRecord, User,
};
use super::audit::{copy_words, words, Event};
use super::devices::Device;
use super::grants::Reachable;
use super::https::{find_scheme, lemma_scheme_end, scheme_end};
use super::releases::Listed;
use super::rows::{at, lemma_at};
use super::webtransport::accepted_path;
use crate::hex::{hex, hex_of};
use crate::net::Ip;
use crate::protocol::{DeviceId, Role};
use crate::text::{
    after, before, chars_of, decimal, eq_ignore_case, find, holds, index_from, is_space,
    lemma_one_piece, lemma_parted, lemma_trimmed_fixed, pieces, push_decimal, same, same_but_case,
    signed, signed_text, split, starts, starts_with, text_of, texts, trim, trimmed,
};
use vstd::prelude::*;
use vstd::slice::slice_subrange;

verus! {

/// The largest relayed packet taken from a browser. A QUIC packet in the
/// tunnel is about 1.2 kB; this leaves room and no more.
pub const MAX_RELAYED: usize = 16_384;

/// How long a browser has to say which device it wants, in seconds.
pub const RELAY_FIRST_MESSAGE: u64 = 10;

/// Packets waiting to go out to one browser. About a quarter of a megabyte of
/// video, after which the newest are dropped rather than queued.
pub const RELAY_QUEUE: usize = 200;

/// How long the session cookie lasts, in seconds.
pub const COOKIE_LIFETIME: i64 = 43_200;

/// How many audit entries a request that does not say gets.
pub const AUDIT_PAGE: u32 = 100;

/// How many devices an enrollment token is for, unless the request says.
pub const ENROLL_USES: u32 = 1;

/// And for how many days.
pub const ENROLL_DAYS: u32 = 1;

/// What agents and viewers need to reach and pin this server.
#[derive(Debug, Clone, PartialEq, Eq)]
pub struct ServerInfo {
    /// `host:port` of the QUIC side.
    pub address: String,
    pub fingerprint: String,
}

// --- What can be asked -------------------------------------------------------------------------

#[derive(Debug, Clone, Copy, PartialEq, Eq, Structural)]
pub enum Method {
    Get,
    Head,
    Options,
    Post,
    Put,
    Patch,
    Delete,
    Other,
}

/// Who may ask.
#[derive(Debug, Clone, Copy, PartialEq, Eq, Structural)]
pub enum Guard {
    Anyone,
    SignedIn,
    Administrators,
}

/// What is asked about.
#[derive(Debug, Clone, Copy, PartialEq, Eq, Structural)]
pub enum Resource {
    Health,
    Setup,
    Login,
    Logout,
    Me,
    Password,
    Totp,
    TotpConfirm,
    TotpDisable,
    Tokens,
    Token,
    Users,
    User,
    Server,
    Devices,
    Device,
    DeviceGroups,
    DeviceGroup,
    EnrollTokens,
    EnrollToken,
    UserGroups,
    UserGroup,
    Member,
    Grants,
    Grant,
    Audit,
    Releases,
    Release,
    Offer,
    DeviceGrant,
    Webtransport,
    /// Where browsers without WebTransport, or on networks without UDP, carry
    /// their session instead: the same relay, over this TCP connection.
    Relay,
}

impl Resource {
    /// Where it is, with the names of what varies in braces.
    pub open spec fn located(&self) -> Seq<char> {
        match self {
            Resource::Health => "/api/v1/health"@,
            Resource::Setup => "/api/v1/setup"@,
            Resource::Login => "/api/v1/login"@,
            Resource::Logout => "/api/v1/logout"@,
            Resource::Me => "/api/v1/me"@,
            Resource::Password => "/api/v1/me/password"@,
            Resource::Totp => "/api/v1/me/totp"@,
            Resource::TotpConfirm => "/api/v1/me/totp/confirm"@,
            Resource::TotpDisable => "/api/v1/me/totp/disable"@,
            Resource::Tokens => "/api/v1/me/tokens"@,
            Resource::Token => "/api/v1/me/tokens/{id}"@,
            Resource::Users => "/api/v1/users"@,
            Resource::User => "/api/v1/users/{id}"@,
            Resource::Server => "/api/v1/server"@,
            Resource::Devices => "/api/v1/devices"@,
            Resource::Device => "/api/v1/devices/{id}"@,
            Resource::DeviceGroups => "/api/v1/device-groups"@,
            Resource::DeviceGroup => "/api/v1/device-groups/{id}"@,
            Resource::EnrollTokens => "/api/v1/enroll-tokens"@,
            Resource::EnrollToken => "/api/v1/enroll-tokens/{id}"@,
            Resource::UserGroups => "/api/v1/user-groups"@,
            Resource::UserGroup => "/api/v1/user-groups/{id}"@,
            Resource::Member => "/api/v1/user-groups/{id}/members/{user}"@,
            Resource::Grants => "/api/v1/grants"@,
            Resource::Grant => "/api/v1/grants/{id}"@,
            Resource::Audit => "/api/v1/audit"@,
            Resource::Releases => "/api/v1/releases"@,
            Resource::Release => "/api/v1/releases/{id}"@,
            Resource::Offer => "/api/v1/releases/{id}/offer"@,
            Resource::DeviceGrant => "/api/v1/devices/{id}/grant"@,
            Resource::Webtransport => "/api/v1/webtransport"@,
            Resource::Relay => "/api/v1/relay"@,
        }
    }

    pub fn path(&self) -> (path: &'static str)
        ensures
            path@ == self.located(),
    {
        match self {
            Resource::Health => "/api/v1/health",
            Resource::Setup => "/api/v1/setup",
            Resource::Login => "/api/v1/login",
            Resource::Logout => "/api/v1/logout",
            Resource::Me => "/api/v1/me",
            Resource::Password => "/api/v1/me/password",
            Resource::Totp => "/api/v1/me/totp",
            Resource::TotpConfirm => "/api/v1/me/totp/confirm",
            Resource::TotpDisable => "/api/v1/me/totp/disable",
            Resource::Tokens => "/api/v1/me/tokens",
            Resource::Token => "/api/v1/me/tokens/{id}",
            Resource::Users => "/api/v1/users",
            Resource::User => "/api/v1/users/{id}",
            Resource::Server => "/api/v1/server",
            Resource::Devices => "/api/v1/devices",
            Resource::Device => "/api/v1/devices/{id}",
            Resource::DeviceGroups => "/api/v1/device-groups",
            Resource::DeviceGroup => "/api/v1/device-groups/{id}",
            Resource::EnrollTokens => "/api/v1/enroll-tokens",
            Resource::EnrollToken => "/api/v1/enroll-tokens/{id}",
            Resource::UserGroups => "/api/v1/user-groups",
            Resource::UserGroup => "/api/v1/user-groups/{id}",
            Resource::Member => "/api/v1/user-groups/{id}/members/{user}",
            Resource::Grants => "/api/v1/grants",
            Resource::Grant => "/api/v1/grants/{id}",
            Resource::Audit => "/api/v1/audit",
            Resource::Releases => "/api/v1/releases",
            Resource::Release => "/api/v1/releases/{id}",
            Resource::Offer => "/api/v1/releases/{id}/offer",
            Resource::DeviceGrant => "/api/v1/devices/{id}/grant",
            Resource::Webtransport => "/api/v1/webtransport",
            Resource::Relay => "/api/v1/relay",
        }
    }
}

/// What can be asked of the API.
#[derive(Debug, Clone, Copy, PartialEq, Eq, Structural)]
pub enum Endpoint {
    Health,
    Setup,
    Login,
    Logout,
    Me,
    ChangePassword,
    TotpBegin,
    TotpConfirm,
    TotpDisable,
    ListTokens,
    NewToken,
    DeleteToken,
    ListUsers,
    CreateUser,
    UpdateUser,
    DeleteUser,
    Server,
    ListDevices,
    GetDevice,
    UpdateDevice,
    DeleteDevice,
    ListGroups,
    CreateGroup,
    RenameGroup,
    DeleteGroup,
    ListEnrollTokens,
    NewEnrollToken,
    DeleteEnrollToken,
    ListUserGroups,
    CreateUserGroup,
    RenameUserGroup,
    DeleteUserGroup,
    AddMember,
    RemoveMember,
    ListGrants,
    SetGrant,
    DeleteGrant,
    AuditLog,
    ListReleases,
    UploadRelease,
    DeleteRelease,
    OfferRelease,
    WithdrawRelease,
    DeviceGrant,
    Webtransport,
    Relay,
}

/// How an endpoint is reached, by whom, and the status it answers with when
/// all is well.
#[derive(Debug, Clone, Copy, PartialEq, Eq, Structural)]
pub struct Route {
    pub method: Method,
    pub resource: Resource,
    pub guard: Guard,
    pub status: u16,
}

/// A way in.
pub open spec fn way(method: Method, resource: Resource, guard: Guard, status: u16) -> Route {
    Route { method, resource, guard, status }
}

impl Endpoint {
    pub open spec fn routed(&self) -> Route {
        let (anyone, someone, admins) = (Guard::Anyone, Guard::SignedIn, Guard::Administrators);
        match self {
            Endpoint::Health => way(Method::Get, Resource::Health, anyone, 200),
            Endpoint::Setup => way(Method::Post, Resource::Setup, anyone, 200),
            Endpoint::Login => way(Method::Post, Resource::Login, anyone, 200),
            Endpoint::Logout => way(Method::Post, Resource::Logout, anyone, 204),
            Endpoint::Me => way(Method::Get, Resource::Me, someone, 200),
            Endpoint::ChangePassword => way(Method::Post, Resource::Password, someone, 204),
            Endpoint::TotpBegin => way(Method::Post, Resource::Totp, someone, 200),
            Endpoint::TotpConfirm => way(Method::Post, Resource::TotpConfirm, someone, 204),
            Endpoint::TotpDisable => way(Method::Post, Resource::TotpDisable, someone, 204),
            Endpoint::ListTokens => way(Method::Get, Resource::Tokens, someone, 200),
            Endpoint::NewToken => way(Method::Post, Resource::Tokens, someone, 201),
            Endpoint::DeleteToken => way(Method::Delete, Resource::Token, someone, 204),
            Endpoint::ListUsers => way(Method::Get, Resource::Users, admins, 200),
            Endpoint::CreateUser => way(Method::Post, Resource::Users, admins, 201),
            Endpoint::UpdateUser => way(Method::Patch, Resource::User, admins, 200),
            Endpoint::DeleteUser => way(Method::Delete, Resource::User, admins, 204),
            Endpoint::Server => way(Method::Get, Resource::Server, someone, 200),
            Endpoint::ListDevices => way(Method::Get, Resource::Devices, someone, 200),
            Endpoint::GetDevice => way(Method::Get, Resource::Device, someone, 200),
            Endpoint::UpdateDevice => way(Method::Patch, Resource::Device, admins, 200),
            Endpoint::DeleteDevice => way(Method::Delete, Resource::Device, admins, 204),
            Endpoint::ListGroups => way(Method::Get, Resource::DeviceGroups, admins, 200),
            Endpoint::CreateGroup => way(Method::Post, Resource::DeviceGroups, admins, 201),
            Endpoint::RenameGroup => way(Method::Patch, Resource::DeviceGroup, admins, 200),
            Endpoint::DeleteGroup => way(Method::Delete, Resource::DeviceGroup, admins, 204),
            Endpoint::ListEnrollTokens => way(Method::Get, Resource::EnrollTokens, admins, 200),
            Endpoint::NewEnrollToken => way(Method::Post, Resource::EnrollTokens, admins, 201),
            Endpoint::DeleteEnrollToken => way(Method::Delete, Resource::EnrollToken, admins, 204),
            Endpoint::ListUserGroups => way(Method::Get, Resource::UserGroups, admins, 200),
            Endpoint::CreateUserGroup => way(Method::Post, Resource::UserGroups, admins, 201),
            Endpoint::RenameUserGroup => way(Method::Patch, Resource::UserGroup, admins, 200),
            Endpoint::DeleteUserGroup => way(Method::Delete, Resource::UserGroup, admins, 204),
            Endpoint::AddMember => way(Method::Put, Resource::Member, admins, 200),
            Endpoint::RemoveMember => way(Method::Delete, Resource::Member, admins, 200),
            Endpoint::ListGrants => way(Method::Get, Resource::Grants, admins, 200),
            Endpoint::SetGrant => way(Method::Post, Resource::Grants, admins, 201),
            Endpoint::DeleteGrant => way(Method::Delete, Resource::Grant, admins, 204),
            Endpoint::AuditLog => way(Method::Get, Resource::Audit, admins, 200),
            Endpoint::ListReleases => way(Method::Get, Resource::Releases, admins, 200),
            Endpoint::UploadRelease => way(Method::Post, Resource::Releases, admins, 201),
            Endpoint::DeleteRelease => way(Method::Delete, Resource::Release, admins, 204),
            Endpoint::OfferRelease => way(Method::Post, Resource::Offer, admins, 200),
            Endpoint::WithdrawRelease => way(Method::Delete, Resource::Offer, admins, 200),
            Endpoint::DeviceGrant => way(Method::Post, Resource::DeviceGrant, someone, 200),
            Endpoint::Webtransport => way(Method::Get, Resource::Webtransport, someone, 200),
            Endpoint::Relay => way(Method::Get, Resource::Relay, someone, 101),
        }
    }

    /// How this is reached.
    pub fn route(&self) -> (route: Route)
        ensures
            route == self.routed(),
    {
        let (get, post, put) = (Method::Get, Method::Post, Method::Put);
        let (patch, delete) = (Method::Patch, Method::Delete);
        let (anyone, someone, admins) = (Guard::Anyone, Guard::SignedIn, Guard::Administrators);
        let (method, resource, guard, status): (Method, Resource, Guard, u16) = match self {
            Endpoint::Health => (get, Resource::Health, anyone, 200),
            Endpoint::Setup => (post, Resource::Setup, anyone, 200),
            Endpoint::Login => (post, Resource::Login, anyone, 200),
            Endpoint::Logout => (post, Resource::Logout, anyone, 204),
            Endpoint::Me => (get, Resource::Me, someone, 200),
            Endpoint::ChangePassword => (post, Resource::Password, someone, 204),
            Endpoint::TotpBegin => (post, Resource::Totp, someone, 200),
            Endpoint::TotpConfirm => (post, Resource::TotpConfirm, someone, 204),
            Endpoint::TotpDisable => (post, Resource::TotpDisable, someone, 204),
            Endpoint::ListTokens => (get, Resource::Tokens, someone, 200),
            Endpoint::NewToken => (post, Resource::Tokens, someone, 201),
            Endpoint::DeleteToken => (delete, Resource::Token, someone, 204),
            Endpoint::ListUsers => (get, Resource::Users, admins, 200),
            Endpoint::CreateUser => (post, Resource::Users, admins, 201),
            Endpoint::UpdateUser => (patch, Resource::User, admins, 200),
            Endpoint::DeleteUser => (delete, Resource::User, admins, 204),
            Endpoint::Server => (get, Resource::Server, someone, 200),
            Endpoint::ListDevices => (get, Resource::Devices, someone, 200),
            Endpoint::GetDevice => (get, Resource::Device, someone, 200),
            Endpoint::UpdateDevice => (patch, Resource::Device, admins, 200),
            Endpoint::DeleteDevice => (delete, Resource::Device, admins, 204),
            Endpoint::ListGroups => (get, Resource::DeviceGroups, admins, 200),
            Endpoint::CreateGroup => (post, Resource::DeviceGroups, admins, 201),
            Endpoint::RenameGroup => (patch, Resource::DeviceGroup, admins, 200),
            Endpoint::DeleteGroup => (delete, Resource::DeviceGroup, admins, 204),
            Endpoint::ListEnrollTokens => (get, Resource::EnrollTokens, admins, 200),
            Endpoint::NewEnrollToken => (post, Resource::EnrollTokens, admins, 201),
            Endpoint::DeleteEnrollToken => (delete, Resource::EnrollToken, admins, 204),
            Endpoint::ListUserGroups => (get, Resource::UserGroups, admins, 200),
            Endpoint::CreateUserGroup => (post, Resource::UserGroups, admins, 201),
            Endpoint::RenameUserGroup => (patch, Resource::UserGroup, admins, 200),
            Endpoint::DeleteUserGroup => (delete, Resource::UserGroup, admins, 204),
            Endpoint::AddMember => (put, Resource::Member, admins, 200),
            Endpoint::RemoveMember => (delete, Resource::Member, admins, 200),
            Endpoint::ListGrants => (get, Resource::Grants, admins, 200),
            Endpoint::SetGrant => (post, Resource::Grants, admins, 201),
            Endpoint::DeleteGrant => (delete, Resource::Grant, admins, 204),
            Endpoint::AuditLog => (get, Resource::Audit, admins, 200),
            Endpoint::ListReleases => (get, Resource::Releases, admins, 200),
            Endpoint::UploadRelease => (post, Resource::Releases, admins, 201),
            Endpoint::DeleteRelease => (delete, Resource::Release, admins, 204),
            Endpoint::OfferRelease => (post, Resource::Offer, admins, 200),
            Endpoint::WithdrawRelease => (delete, Resource::Offer, admins, 200),
            Endpoint::DeviceGrant => (post, Resource::DeviceGrant, someone, 200),
            Endpoint::Webtransport => (get, Resource::Webtransport, someone, 200),
            Endpoint::Relay => (get, Resource::Relay, someone, 101),
        };
        Route { method, resource, guard, status }
    }
}

/// What tells a place from the others: its length, and two of its characters.
spec fn told_by(place: Seq<char>) -> (nat, char, char) {
    (
        place.len(),
        place[8],
        if place.len() > 16 {
            place[16]
        } else {
            ' '
        },
    )
}

spec fn tells(resource: Resource) -> (nat, char, char) {
    match resource {
        Resource::Health => (14, 'h', ' '),
        Resource::Setup => (13, 's', ' '),
        Resource::Login => (13, 'l', ' '),
        Resource::Logout => (14, 'l', ' '),
        Resource::Me => (10, 'm', ' '),
        Resource::Password => (19, 'm', 'o'),
        Resource::Totp => (15, 'm', ' '),
        Resource::TotpConfirm => (23, 'm', 'c'),
        Resource::TotpDisable => (23, 'm', 'd'),
        Resource::Tokens => (17, 'm', 's'),
        Resource::Token => (22, 'm', 's'),
        Resource::Users => (13, 'u', ' '),
        Resource::User => (18, 'u', 'd'),
        Resource::Server => (14, 's', ' '),
        Resource::Devices => (15, 'd', ' '),
        Resource::Device => (20, 'd', '{'),
        Resource::DeviceGroups => (21, 'd', 'r'),
        Resource::DeviceGroup => (26, 'd', 'r'),
        Resource::EnrollTokens => (21, 'e', 'o'),
        Resource::EnrollToken => (26, 'e', 'o'),
        Resource::UserGroups => (19, 'u', 'u'),
        Resource::UserGroup => (24, 'u', 'u'),
        Resource::Member => (39, 'u', 'u'),
        Resource::Grants => (14, 'g', ' '),
        Resource::Grant => (19, 'g', 'i'),
        Resource::Audit => (13, 'a', ' '),
        Resource::Releases => (16, 'r', ' '),
        Resource::Release => (21, 'r', '/'),
        Resource::Offer => (27, 'r', '/'),
        Resource::DeviceGrant => (26, 'd', '{'),
        Resource::Webtransport => (20, 'w', 'p'),
        Resource::Relay => (13, 'r', ' '),
    }
}

proof fn lemma_told_by(resource: Resource)
    ensures
        told_by(resource.located()) == tells(resource),
{
    reveal_strlit("/api/v1/health");
    reveal_strlit("/api/v1/setup");
    reveal_strlit("/api/v1/login");
    reveal_strlit("/api/v1/logout");
    reveal_strlit("/api/v1/me");
    reveal_strlit("/api/v1/me/password");
    reveal_strlit("/api/v1/me/totp");
    reveal_strlit("/api/v1/me/totp/confirm");
    reveal_strlit("/api/v1/me/totp/disable");
    reveal_strlit("/api/v1/me/tokens");
    reveal_strlit("/api/v1/me/tokens/{id}");
    reveal_strlit("/api/v1/users");
    reveal_strlit("/api/v1/users/{id}");
    reveal_strlit("/api/v1/server");
    reveal_strlit("/api/v1/devices");
    reveal_strlit("/api/v1/devices/{id}");
    reveal_strlit("/api/v1/device-groups");
    reveal_strlit("/api/v1/device-groups/{id}");
    reveal_strlit("/api/v1/enroll-tokens");
    reveal_strlit("/api/v1/enroll-tokens/{id}");
    reveal_strlit("/api/v1/user-groups");
    reveal_strlit("/api/v1/user-groups/{id}");
    reveal_strlit("/api/v1/user-groups/{id}/members/{user}");
    reveal_strlit("/api/v1/grants");
    reveal_strlit("/api/v1/grants/{id}");
    reveal_strlit("/api/v1/audit");
    reveal_strlit("/api/v1/releases");
    reveal_strlit("/api/v1/releases/{id}");
    reveal_strlit("/api/v1/releases/{id}/offer");
    reveal_strlit("/api/v1/devices/{id}/grant");
    reveal_strlit("/api/v1/webtransport");
    reveal_strlit("/api/v1/relay");
}

/// No two things are in one place.
pub proof fn lemma_one_place_each(a: Resource, b: Resource)
    requires
        a.located() == b.located(),
    ensures
        a == b,
{
    lemma_told_by(a);
    lemma_told_by(b);
}

/// A request reaches one endpoint: no two answer the same method in the same
/// place.
pub proof fn lemma_one_endpoint_each(a: Endpoint, b: Endpoint)
    requires
        a.routed().method == b.routed().method,
        a.routed().resource.located() == b.routed().resource.located(),
    ensures
        a == b,
{
    lemma_one_place_each(a.routed().resource, b.routed().resource);
}

// --- Errors --------------------------------------------------------------------------------------

#[derive(Debug, Clone, PartialEq, Eq)]
pub enum ApiError {
    Refused(Refused),
    Unauthenticated,
    CrossSite,
}

impl From<Refused> for ApiError {
    fn from(refused: Refused) -> (error: Self) {
        ApiError::Refused(refused)
    }
}

impl vstd::std_specs::convert::FromSpecImpl<Refused> for ApiError {
    open spec fn obeys_from_spec() -> bool {
        true
    }

    open spec fn from_spec(refused: Refused) -> ApiError {
        ApiError::Refused(refused)
    }
}

/// An error as it is answered: `{"error": message}`, with `"totp_needed":
/// true` where that is so.
#[derive(Debug)]
pub struct Answer {
    pub status: u16,
    pub message: String,
    pub totp_needed: bool,
}

impl ApiError {
    pub open spec fn status(&self) -> u16 {
        match self {
            ApiError::Unauthenticated => 401,
            ApiError::CrossSite => 403,
            ApiError::Refused(refused) => match refused {
                Refused::WrongCredentials | Refused::TotpNeeded | Refused::WrongCode => 401,
                Refused::TooManyAttempts => 429,
                Refused::Invalid(_) => 400,
                Refused::Forbidden => 403,
                Refused::NotFound => 404,
            },
        }
    }

    pub open spec fn says(&self) -> Seq<char> {
        match self {
            ApiError::Unauthenticated => "sign in first"@,
            ApiError::CrossSite => "request from another site refused"@,
            ApiError::Refused(refused) => refused.says(),
        }
    }

    pub fn answer(&self) -> (answer: Answer)
        ensures
            answer.status == self.status(),
            answer.message@ == self.says(),
            answer.totp_needed == (*self matches ApiError::Refused(Refused::TotpNeeded)),
    {
        let (status, message): (u16, String) = match self {
            ApiError::Unauthenticated => (401, "sign in first".to_owned()),
            ApiError::CrossSite => (403, "request from another site refused".to_owned()),
            ApiError::Refused(refused) => {
                let status: u16 = match refused {
                    Refused::WrongCredentials | Refused::TotpNeeded | Refused::WrongCode => 401,
                    Refused::TooManyAttempts => 429,
                    Refused::Invalid(_) => 400,
                    Refused::Forbidden => 403,
                    Refused::NotFound => 404,
                };
                (status, refused.message())
            },
        };
        let totp_needed = match self {
            ApiError::Refused(Refused::TotpNeeded) => true,
            _ => false,
        };
        Answer { status, message, totp_needed }
    }
}

// --- Who is asking -------------------------------------------------------------------------------

/// What a request says of who sent it, in headers that are readable text.
#[derive(Debug)]
pub struct Headers {
    pub authorization: Option<String>,
    /// Every `Cookie` header there is.
    pub cookies: Vec<String>,
    pub origin: Option<String>,
    pub host: Option<String>,
}

/// The token of an `Authorization` header.
pub open spec fn bearer_in(authorization: Option<Seq<char>>) -> Option<Seq<char>> {
    match authorization {
        Some(text) => if starts(text, "Bearer "@) {
            Some(trimmed(text.skip(7)))
        } else {
            None
        },
        None => None,
    }
}

fn bearer(headers: &Headers) -> (token: Option<String>)
    ensures
        words(token) == bearer_in(words(headers.authorization)),
{
    match &headers.authorization {
        Some(text) => {
            let chars = chars_of(text);
            let prefix = chars_of("Bearer ");
            if starts_with(&chars, &prefix) {
                proof {
                    reveal_strlit("Bearer ");
                }
                let rest = slice_subrange(&chars, 7, chars.len());
                assert(rest@ =~= text@.skip(7));
                Some(text_of(trim(rest)))
            } else {
                None
            }
        },
        None => None,
    }
}

/// What a cookie called `name` holds, in the first of these pairs that has
/// it, from place `from` on.
pub open spec fn pair_called(pairs: Seq<Seq<char>>, name: Seq<char>, from: int) -> Option<Seq<char>>
    decreases pairs.len() - from,
{
    if from < 0 || from >= pairs.len() {
        None
    } else {
        let pair = trimmed(pairs[from]);
        if index_from(pair, '=', 0) < pair.len() && before(pair, '=') == name {
            Some(after(pair, '='))
        } else {
            pair_called(pairs, name, from + 1)
        }
    }
}

/// And in the first of these headers that has it.
pub open spec fn cookie_in(headers: Seq<String>, name: Seq<char>, from: int) -> Option<Seq<char>>
    decreases headers.len() - from,
{
    if from < 0 || from >= headers.len() {
        None
    } else {
        match pair_called(pieces(headers[from]@, ';'), name, 0) {
            Some(value) => Some(value),
            None => cookie_in(headers, name, from + 1),
        }
    }
}

fn cookie_of(header: &str, name: &[char]) -> (value: Option<String>)
    ensures
        words(value) == pair_called(pieces(header@, ';'), name@, 0),
{
    let parts = split(&chars_of(header), ';');
    let mut i: usize = 0;
    while i < parts.len()
        invariant
            i <= parts@.len(),
            texts(parts@) == pieces(header@, ';'),
            pair_called(pieces(header@, ';'), name@, 0) == pair_called(
                pieces(header@, ';'),
                name@,
                i as int,
            ),
        decreases parts.len() - i,
    {
        assert(texts(parts@)[i as int] == parts@[i as int]@);
        let pair = trim(&parts[i]);
        let sign = find(pair, '=', 0);
        if sign < pair.len() {
            let key = slice_subrange(pair, 0, sign);
            assert(key@ =~= before(pair@, '='));
            if same(key, name) {
                let rest = slice_subrange(pair, sign + 1, pair.len());
                assert(rest@ =~= after(pair@, '='));
                return Some(text_of(rest));
            }
        }
        i = i + 1;
    }
    None
}

fn cookie(headers: &Headers, name: &str) -> (value: Option<String>)
    ensures
        words(value) == cookie_in(headers.cookies@, name@, 0),
{
    let name_chars = chars_of(name);
    let mut i: usize = 0;
    while i < headers.cookies.len()
        invariant
            i <= headers.cookies@.len(),
            name_chars@ == name@,
            cookie_in(headers.cookies@, name@, 0) == cookie_in(headers.cookies@, name@, i as int),
        decreases headers.cookies.len() - i,
    {
        let value = cookie_of(&headers.cookies[i], &name_chars);
        if value.is_some() {
            return value;
        }
        i = i + 1;
    }
    None
}

impl Method {
    /// It changes nothing.
    pub open spec fn safe(&self) -> bool {
        *self == Method::Get || *self == Method::Head || *self == Method::Options
    }

    pub fn is_safe(&self) -> (yes: bool)
        ensures
            yes == self.safe(),
    {
        match self {
            Method::Get | Method::Head | Method::Options => true,
            _ => false,
        }
    }
}

/// A text without the slashes it ends with.
pub open spec fn unslashed(s: Seq<char>) -> Seq<char>
    decreases s.len(),
{
    if s.len() > 0 && s.last() == '/' {
        unslashed(s.drop_last())
    } else {
        s
    }
}

/// Whether a page from `origin` is of `host`.
pub open spec fn from_host(origin: Option<Seq<char>>, host: Option<Seq<char>>) -> bool {
    match origin {
        None => true,
        Some(origin) => {
            &&& scheme_end(origin, 0) >= 0
            &&& host matches Some(host)
            &&& same_but_case(unslashed(origin.skip(scheme_end(origin, 0) + 3)), host)
        },
    }
}

/// Whether a request with the session cookie came from this server's own
/// pages. Browsers send `Origin` on such requests; one that names another
/// host is refused. (With `SameSite=Strict` the cookie should not even arrive
/// from elsewhere: this is the second lock.)
pub fn same_origin(headers: &Headers) -> (yes: bool)
    ensures
        yes == from_host(words(headers.origin), words(headers.host)),
{
    let origin = match &headers.origin {
        None => {
            return true;
        },
        Some(origin) => chars_of(origin),
    };
    let start = match find_scheme(&origin) {
        None => {
            return false;
        },
        Some(at) => at + 3,
    };
    let host = match &headers.host {
        None => {
            return false;
        },
        Some(host) => chars_of(host),
    };
    let ghost named = origin@.skip(start as int);
    let mut end: usize = origin.len();
    assert(origin@.subrange(start as int, end as int) =~= named);
    while end > start && origin[end - 1] == '/'
        invariant
            start <= end <= origin@.len(),
            unslashed(named) == unslashed(origin@.subrange(start as int, end as int)),
        decreases end,
    {
        assert(origin@.subrange(start as int, end as int).drop_last() =~= origin@.subrange(
            start as int,
            end - 1,
        ));
        end = end - 1;
    }
    eq_ignore_case(slice_subrange(&origin, start, end), &host)
}

/// The signed-in caller, by API token or session cookie, and where from.
#[derive(Debug)]
pub struct Caller {
    pub user: User,
    pub from: Option<Ip>,
}

/// A caller who is an administrator.
#[derive(Debug)]
pub struct Admin(pub Caller);

/// The cookie that the console's session is in.
pub open spec fn session_cookie_name() -> Seq<char> {
    "nearhand_session"@
}

/// Where the account is that a request is from, if it is from one.
pub open spec fn caller_at(accounts: &Accounts, method: Method, headers: &Headers, now: i64) -> Result<
    int,
    ApiError,
> {
    match bearer_in(words(headers.authorization)) {
        Some(token) => {
            let i = token_at(accounts.tokens@, accounts.users@, hash_of(token), now);
            if starts(token, api_prefix()) && i >= 0 {
                Ok(at(accounts.users@, accounts.tokens@[i].user))
            } else {
                Err(ApiError::Unauthenticated)
            }
        },
        None => match cookie_in(headers.cookies@, session_cookie_name(), 0) {
            Some(token) => {
                let i = session_at(accounts.logins@, accounts.users@, hash_of(token), now);
                if !method.safe() && !from_host(words(headers.origin), words(headers.host)) {
                    Err(ApiError::CrossSite)
                } else if starts(token, login_prefix()) && i >= 0 {
                    Ok(i)
                } else {
                    Err(ApiError::Unauthenticated)
                }
            },
            None => Err(ApiError::Unauthenticated),
        },
    }
}

/// Headers whose tokens are short enough to hash.
pub open spec fn short(headers: &Headers) -> bool {
    &&& bearer_in(words(headers.authorization)) matches Some(token) ==> fits(token)
    &&& cookie_in(headers.cookies@, session_cookie_name(), 0) matches Some(token) ==> fits(token)
}

impl Caller {
    /// This is who sent a request, and what comes of asking.
    pub open spec fn identified(
        before: &Accounts,
        after: &Accounts,
        method: Method,
        headers: &Headers,
        from: Option<Ip>,
        now: i64,
        caller: Result<Caller, ApiError>,
    ) -> bool {
        &&& after.same_but_tokens(before)
        &&& match caller {
            Ok(caller) => {
                &&& caller_at(before, method, headers, now) matches Ok(i)
                &&& 0 <= i < before.users@.len()
                &&& caller.user.shows(&before.users@[i])
                &&& caller.from == (match from {
                    Some(ip) => Some(ip.canonical()),
                    None => None,
                })
                &&& after.tokens@ == (match bearer_in(words(headers.authorization)) {
                    Some(token) => noted(before.tokens@, hash_of(token), now),
                    None => before.tokens@,
                })
            },
            Err(error) => caller_at(before, method, headers, now) == Err::<int, ApiError>(error)
                && after.tokens == before.tokens,
        }
    }

    /// Whoever sent a request, by API token or session cookie.
    pub fn identify(
        accounts: &mut Accounts,
        method: Method,
        headers: &Headers,
        from: Option<Ip>,
        now: i64,
    ) -> (caller: Result<Caller, ApiError>)
        requires
            old(accounts).wf(),
            short(headers),
        ensures
            final(accounts).wf(),
            Caller::identified(
                old(accounts),
                final(accounts),
                method,
                headers,
                from,
                now,
                caller,
            ),
    {
        let from: Option<Ip> = match from {
            Some(ip) => Some(ip.to_canonical()),
            None => None,
        };
        if let Some(token) = bearer(headers) {
            proof {
                let i = token_at(accounts.tokens@, accounts.users@, hash_of(token@), now);
                lemma_at(accounts.users@, accounts.tokens@[i].user);
            }
            return match accounts.api_user(&token, now) {
                Some(user) => Ok(Caller { user, from }),
                None => Err(ApiError::Unauthenticated),
            };
        }
        let token = match cookie(headers, "nearhand_session") {
            Some(token) => token,
            None => {
                return Err(ApiError::Unauthenticated);
            },
        };
        if !method.is_safe() && !same_origin(headers) {
            return Err(ApiError::CrossSite);
        }
        match accounts.session_user(&token, now) {
            Some(user) => Ok(Caller { user, from }),
            None => Err(ApiError::Unauthenticated),
        }
    }

    /// An administrator, or nobody.
    pub fn admin(self) -> (admin: Result<Admin, ApiError>)
        ensures
            match admin {
                Ok(admin) => self.user.admin && admin.0 == self,
                Err(error) => !self.user.admin && error == ApiError::Refused(Refused::Forbidden),
            },
    {
        if self.user.admin {
            Ok(Admin(self))
        } else {
            Err(ApiError::Refused(Refused::Forbidden))
        }
    }
}

impl Endpoint {
    /// What comes of a request to this endpoint from `caller`.
    pub open spec fn lets_in(
        &self,
        caller: Result<Caller, ApiError>,
        allowed: Result<Option<Caller>, ApiError>,
    ) -> bool {
        match self.routed().guard {
            Guard::Anyone => allowed matches Ok(who) && who is None,
            Guard::SignedIn => match caller {
                Ok(caller) => allowed matches Ok(who) && who == Some(caller),
                Err(error) => allowed matches Err(answer) && answer == error,
            },
            Guard::Administrators => match caller {
                Ok(caller) => if caller.user.admin {
                    allowed matches Ok(who) && who == Some(caller)
                } else {
                    allowed matches Err(answer) && answer == ApiError::Refused(Refused::Forbidden)
                },
                Err(error) => allowed matches Err(answer) && answer == error,
            },
        }
    }

    /// Whether whoever sent a request may have it answered.
    pub fn open_to(&self, caller: Result<Caller, ApiError>) -> (allowed: Result<
        Option<Caller>,
        ApiError,
    >)
        ensures
            self.lets_in(caller, allowed),
    {
        match self.route().guard {
            Guard::Anyone => Ok(None),
            Guard::SignedIn => match caller {
                Ok(caller) => Ok(Some(caller)),
                Err(error) => Err(error),
            },
            Guard::Administrators => match caller {
                Ok(caller) => match caller.admin() {
                    Ok(admin) => Ok(Some(admin.0)),
                    Err(error) => Err(error),
                },
                Err(error) => Err(error),
            },
        }
    }
}

/// Nobody is anybody without credentials: a request with neither an API token
/// nor a session cookie is from no one.
pub proof fn lemma_nobody_without_credentials(
    accounts: Accounts,
    method: Method,
    headers: Headers,
    now: i64,
)
    requires
        headers.authorization is None,
        headers.cookies@.len() == 0,
    ensures
        caller_at(&accounts, method, &headers, now) == Err::<int, ApiError>(
            ApiError::Unauthenticated,
        ),
{
}

/// What changes anything with the session cookie comes from this server's own
/// pages: from elsewhere, such a request is refused whoever sent it.
pub proof fn lemma_other_sites_are_refused(
    accounts: Accounts,
    method: Method,
    headers: Headers,
    now: i64,
)
    requires
        bearer_in(words(headers.authorization)) is None,
        cookie_in(headers.cookies@, session_cookie_name(), 0) is Some,
        !method.safe(),
        !from_host(words(headers.origin), words(headers.host)),
    ensures
        caller_at(&accounts, method, &headers, now) == Err::<int, ApiError>(ApiError::CrossSite),
{
}

/// The console's cookie, set to a token or cleared.
pub open spec fn set_cookie(token: Seq<char>, max_age: int) -> Seq<char> {
    session_cookie_name() + "="@ + token
        + "; Path=/; HttpOnly; Secure; SameSite=Strict; Max-Age="@ + signed(max_age)
}

pub fn session_cookie(token: &str, max_age: i64) -> (cookie: String)
    ensures
        cookie@ == set_cookie(token@, max_age as int),
{
    let mut cookie = "nearhand_session".to_owned();
    cookie.append("=");
    cookie.append(token);
    cookie.append("; Path=/; HttpOnly; Secure; SameSite=Strict; Max-Age=");
    cookie.append(&signed_text(max_age));
    cookie
}

/// Sign out whoever is signed in; the cookie that clears theirs.
pub fn logout(accounts: &mut Accounts, headers: &Headers) -> (cookie: String)
    requires
        old(accounts).wf(),
        short(headers),
    ensures
        final(accounts).wf(),
        cookie@ == set_cookie(Seq::empty(), 0),
        final(accounts).users == old(accounts).users,
        final(accounts).same_rest(old(accounts)),
        final(accounts).logins@ == (match cookie_in(
            headers.cookies@,
            session_cookie_name(),
            0,
        ) {
            Some(token) => old(accounts).logins@.filter(other_logins(hash_of(token))),
            None => old(accounts).logins@,
        }),
{
    if let Some(token) = cookie(headers, "nearhand_session") {
        accounts.sign_out(&token);
    }
    proof {
        reveal_strlit("");
        assert(""@ =~= Seq::<char>::empty());
    }
    session_cookie("", 0)
}

// --- What goes in the audit log --------------------------------------------------------------

/// `#12`, for something that has no name any more.
pub open spec fn numbered_name(id: i64) -> Seq<char> {
    "#"@ + signed(id as int)
}

fn number_name(id: i64) -> (name: String)
    ensures
        name@ == numbered_name(id),
{
    let mut name = "#".to_owned();
    name.append(&signed_text(id));
    name
}

/// What something is called, by its number if its name is gone.
pub open spec fn called(name: Option<Seq<char>>, id: i64) -> Seq<char> {
    match name {
        Some(name) => name,
        None => numbered_name(id),
    }
}

pub fn name_or_number(name: &Option<String>, id: i64) -> (called_it: String)
    ensures
        called_it@ == called(words(*name), id),
{
    match name {
        Some(name) => name.as_str().to_owned(),
        None => number_name(id),
    }
}

pub open spec fn truth(yes: bool) -> Seq<char> {
    if yes {
        "true"@
    } else {
        "false"@
    }
}

fn truth_word(yes: bool) -> (word: &'static str)
    ensures
        word@ == truth(yes),
{
    if yes {
        "true"
    } else {
        "false"
    }
}

/// Something a caller did.
#[derive(Debug)]
pub enum Act {
    Setup,
    Login,
    PasswordChange,
    TotpEnable,
    TotpDisable,
    TokenCreate { name: String },
    TokenDelete { id: i64 },
    UserCreate { name: String, admin: bool },
    UserUpdate { name: String, admin: bool, disabled: bool },
    UserDelete { id: i64, was: Option<String> },
    DeviceUpdate { name: String, group: Option<String> },
    DeviceDelete { name: String, device_id: String },
    DeviceGroupCreate { name: String },
    DeviceGroupRename { before: String, name: String },
    DeviceGroupDelete { name: String },
    EnrollTokenCreate { name: String, uses: Option<i64>, days: u32, group_id: Option<i64> },
    EnrollTokenDelete { id: i64, was: Option<String> },
    UserGroupCreate { name: String },
    UserGroupRename { before: String, name: String },
    UserGroupDelete { name: String },
    UserGroupAdd { user_group: String, user: i64, was: Option<String> },
    UserGroupRemove { user_group: String, user: i64, was: Option<String> },
    GrantSet { user_group: String, device_group: String, role: String },
    GrantDelete { user_group: String, device_group: String, role: String },
    SessionRefuse { id: i64 },
    SessionGrant { device: DeviceId, level: Role },
    ReleaseUpload { release: String, sha256: String },
    ReleaseOffer { release: String },
    ReleaseWithdraw { release: String },
    ReleaseDelete { release: String },
}

/// Who may do what with which devices, in the log.
pub open spec fn between(user_group: Seq<char>, device_group: Seq<char>) -> Seq<char> {
    user_group + " → "@ + device_group
}

/// What an enrollment token is for, in the log.
pub open spec fn enrolls(uses: Option<i64>, days: u32, group: Option<i64>) -> Seq<char> {
    "uses: "@ + (match uses {
        Some(n) => signed(n as int),
        None => "any"@,
    }) + ", days: "@ + decimal(days as nat) + ", group: "@ + (match group {
        Some(id) => numbered_name(id),
        None => "none"@,
    })
}

fn pair_of_groups(user_group: &str, device_group: &str) -> (text: String)
    ensures
        text@ == between(user_group@, device_group@),
{
    let mut text = user_group.to_owned();
    text.append(" → ");
    text.append(device_group);
    text
}

fn enrollment_terms(uses: Option<i64>, days: u32, group: Option<i64>) -> (text: String)
    ensures
        text@ == enrolls(uses, days, group),
{
    let mut text = "uses: ".to_owned();
    match uses {
        Some(n) => text.append(&signed_text(n)),
        None => text.append("any"),
    }
    text.append(", days: ");
    push_decimal(&mut text, days as u64);
    text.append(", group: ");
    match group {
        Some(id) => text.append(&number_name(id)),
        None => text.append("none"),
    }
    text
}

impl Act {
    /// What it is called in the log.
    pub open spec fn action(&self) -> Seq<char> {
        match self {
            Act::Setup => "setup"@,
            Act::Login => "login"@,
            Act::PasswordChange => "password.change"@,
            Act::TotpEnable => "totp.enable"@,
            Act::TotpDisable => "totp.disable"@,
            Act::TokenCreate { .. } => "token.create"@,
            Act::TokenDelete { .. } => "token.delete"@,
            Act::UserCreate { .. } => "user.create"@,
            Act::UserUpdate { .. } => "user.update"@,
            Act::UserDelete { .. } => "user.delete"@,
            Act::DeviceUpdate { .. } => "device.update"@,
            Act::DeviceDelete { .. } => "device.delete"@,
            Act::DeviceGroupCreate { .. } => "device_group.create"@,
            Act::DeviceGroupRename { .. } => "device_group.rename"@,
            Act::DeviceGroupDelete { .. } => "device_group.delete"@,
            Act::EnrollTokenCreate { .. } => "enroll_token.create"@,
            Act::EnrollTokenDelete { .. } => "enroll_token.delete"@,
            Act::UserGroupCreate { .. } => "user_group.create"@,
            Act::UserGroupRename { .. } => "user_group.rename"@,
            Act::UserGroupDelete { .. } => "user_group.delete"@,
            Act::UserGroupAdd { .. } => "user_group.add"@,
            Act::UserGroupRemove { .. } => "user_group.remove"@,
            Act::GrantSet { .. } => "grant.set"@,
            Act::GrantDelete { .. } => "grant.delete"@,
            Act::SessionRefuse { .. } => "session.refuse"@,
            Act::SessionGrant { .. } => "session.grant"@,
            Act::ReleaseUpload { .. } => "release.upload"@,
            Act::ReleaseOffer { .. } => "release.offer"@,
            Act::ReleaseWithdraw { .. } => "release.withdraw"@,
            Act::ReleaseDelete { .. } => "release.delete"@,
        }
    }

    /// What it was done to, in words.
    pub open spec fn target(&self, who: Seq<char>) -> Seq<char> {
        match self {
            Act::Setup
            | Act::Login
            | Act::PasswordChange
            | Act::TotpEnable
            | Act::TotpDisable
            | Act::TokenCreate { .. }
            | Act::TokenDelete { .. } => who,
            Act::UserCreate { name, .. }
            | Act::UserUpdate { name, .. }
            | Act::DeviceUpdate { name, .. }
            | Act::DeviceDelete { name, .. }
            | Act::DeviceGroupCreate { name }
            | Act::DeviceGroupDelete { name }
            | Act::EnrollTokenCreate { name, .. }
            | Act::UserGroupCreate { name }
            | Act::UserGroupDelete { name } => name@,
            Act::UserDelete { id, was } | Act::EnrollTokenDelete { id, was } => called(
                words(*was),
                *id,
            ),
            Act::DeviceGroupRename { before, .. } | Act::UserGroupRename { before, .. } => before@,
            Act::UserGroupAdd { user_group, .. } | Act::UserGroupRemove { user_group, .. } => user_group@,
            Act::GrantSet { user_group, device_group, .. }
            | Act::GrantDelete { user_group, device_group, .. } => between(
                user_group@,
                device_group@,
            ),
            Act::SessionRefuse { id } => numbered_name(*id),
            Act::SessionGrant { device, .. } => device.written(),
            Act::ReleaseUpload { release, .. }
            | Act::ReleaseOffer { release }
            | Act::ReleaseWithdraw { release }
            | Act::ReleaseDelete { release } => release@,
        }
    }

    /// And what else there is to say of it.
    pub open spec fn detail(&self) -> Option<Seq<char>> {
        match self {
            Act::Setup => Some("first administrator"@),
            Act::TokenCreate { name } => Some(name@),
            Act::TokenDelete { id } => Some(numbered_name(*id)),
            Act::UserCreate { admin, .. } => if *admin {
                Some("administrator"@)
            } else {
                None
            },
            Act::UserUpdate { admin, disabled, .. } => Some(
                "admin: "@ + truth(*admin) + ", disabled: "@ + truth(*disabled),
            ),
            Act::DeviceUpdate { group, .. } => Some(
                "group: "@ + (match group {
                    Some(group) => group@,
                    None => "none"@,
                }),
            ),
            Act::DeviceDelete { device_id, .. } => Some(device_id@),
            Act::DeviceGroupRename { name, .. } | Act::UserGroupRename { name, .. } => Some(name@),
            Act::EnrollTokenCreate { uses, days, group_id, .. } => Some(
                enrolls(*uses, *days, *group_id),
            ),
            Act::UserGroupAdd { user, was, .. } | Act::UserGroupRemove { user, was, .. } => Some(
                called(words(*was), *user),
            ),
            Act::GrantSet { role, .. } | Act::GrantDelete { role, .. } => Some(role@),
            Act::SessionRefuse { .. } => Some("no grant"@),
            Act::SessionGrant { level, .. } => Some(level.name() + ", web"@),
            Act::ReleaseUpload { sha256, .. } => Some(sha256@),
            _ => None,
        }
    }

    fn action_word(&self) -> (word: &'static str)
        ensures
            word@ == self.action(),
    {
        match self {
            Act::Setup => "setup",
            Act::Login => "login",
            Act::PasswordChange => "password.change",
            Act::TotpEnable => "totp.enable",
            Act::TotpDisable => "totp.disable",
            Act::TokenCreate { .. } => "token.create",
            Act::TokenDelete { .. } => "token.delete",
            Act::UserCreate { .. } => "user.create",
            Act::UserUpdate { .. } => "user.update",
            Act::UserDelete { .. } => "user.delete",
            Act::DeviceUpdate { .. } => "device.update",
            Act::DeviceDelete { .. } => "device.delete",
            Act::DeviceGroupCreate { .. } => "device_group.create",
            Act::DeviceGroupRename { .. } => "device_group.rename",
            Act::DeviceGroupDelete { .. } => "device_group.delete",
            Act::EnrollTokenCreate { .. } => "enroll_token.create",
            Act::EnrollTokenDelete { .. } => "enroll_token.delete",
            Act::UserGroupCreate { .. } => "user_group.create",
            Act::UserGroupRename { .. } => "user_group.rename",
            Act::UserGroupDelete { .. } => "user_group.delete",
            Act::UserGroupAdd { .. } => "user_group.add",
            Act::UserGroupRemove { .. } => "user_group.remove",
            Act::GrantSet { .. } => "grant.set",
            Act::GrantDelete { .. } => "grant.delete",
            Act::SessionRefuse { .. } => "session.refuse",
            Act::SessionGrant { .. } => "session.grant",
            Act::ReleaseUpload { .. } => "release.upload",
            Act::ReleaseOffer { .. } => "release.offer",
            Act::ReleaseWithdraw { .. } => "release.withdraw",
            Act::ReleaseDelete { .. } => "release.delete",
        }
    }

    fn target_words(&self, who: &str) -> (text: String)
        ensures
            text@ == self.target(who@),
    {
        match self {
            Act::Setup
            | Act::Login
            | Act::PasswordChange
            | Act::TotpEnable
            | Act::TotpDisable
            | Act::TokenCreate { .. }
            | Act::TokenDelete { .. } => who.to_owned(),
            Act::UserCreate { name, .. }
            | Act::UserUpdate { name, .. }
            | Act::DeviceUpdate { name, .. }
            | Act::DeviceDelete { name, .. }
            | Act::DeviceGroupCreate { name }
            | Act::DeviceGroupDelete { name }
            | Act::EnrollTokenCreate { name, .. }
            | Act::UserGroupCreate { name }
            | Act::UserGroupDelete { name } => name.as_str().to_owned(),
            Act::UserDelete { id, was } | Act::EnrollTokenDelete { id, was } => {
                name_or_number(was, *id)
            },
            Act::DeviceGroupRename { before, .. } | Act::UserGroupRename { before, .. } => {
                before.as_str().to_owned()
            },
            Act::UserGroupAdd { user_group, .. } | Act::UserGroupRemove { user_group, .. } => {
                user_group.as_str().to_owned()
            },
            Act::GrantSet { user_group, device_group, .. }
            | Act::GrantDelete { user_group, device_group, .. } => {
                pair_of_groups(user_group, device_group)
            },
            Act::SessionRefuse { id } => number_name(*id),
            Act::SessionGrant { device, .. } => device.text(),
            Act::ReleaseUpload { release, .. }
            | Act::ReleaseOffer { release }
            | Act::ReleaseWithdraw { release }
            | Act::ReleaseDelete { release } => release.as_str().to_owned(),
        }
    }

    fn detail_words(&self) -> (text: Option<String>)
        ensures
            words(text) == self.detail(),
    {
        match self {
            Act::Setup => Some("first administrator".to_owned()),
            Act::TokenCreate { name } => Some(name.as_str().to_owned()),
            Act::TokenDelete { id } => Some(number_name(*id)),
            Act::UserCreate { admin, .. } => if *admin {
                Some("administrator".to_owned())
            } else {
                None
            },
            Act::UserUpdate { admin, disabled, .. } => {
                let mut text = "admin: ".to_owned();
                text.append(truth_word(*admin));
                text.append(", disabled: ");
                text.append(truth_word(*disabled));
                Some(text)
            },
            Act::DeviceUpdate { group, .. } => {
                let mut text = "group: ".to_owned();
                match group {
                    Some(group) => text.append(group),
                    None => text.append("none"),
                }
                Some(text)
            },
            Act::DeviceDelete { device_id, .. } => Some(device_id.as_str().to_owned()),
            Act::DeviceGroupRename { name, .. } | Act::UserGroupRename { name, .. } => {
                Some(name.as_str().to_owned())
            },
            Act::EnrollTokenCreate { uses, days, group_id, .. } => {
                Some(enrollment_terms(*uses, *days, *group_id))
            },
            Act::UserGroupAdd { user, was, .. } | Act::UserGroupRemove { user, was, .. } => {
                Some(name_or_number(was, *user))
            },
            Act::GrantSet { role, .. } | Act::GrantDelete { role, .. } => {
                Some(role.as_str().to_owned())
            },
            Act::SessionRefuse { .. } => Some("no grant".to_owned()),
            Act::SessionGrant { level, .. } => {
                let mut text = level.as_str().to_owned();
                text.append(", web");
                Some(text)
            },
            Act::ReleaseUpload { sha256, .. } => Some(sha256.as_str().to_owned()),
            _ => None,
        }
    }

    /// This is recorded of what `who` did.
    pub open spec fn recorded_as(&self, event: &Event, who: &Caller) -> bool {
        &&& words(event.actor) == Some(who.user.name@)
        &&& event.address == who.from
        &&& event.action@ == self.action()
        &&& words(event.target) == Some(self.target(who.user.name@))
        &&& words(event.detail) == self.detail()
    }

    /// What goes in the audit log when `who` did this.
    pub fn event(&self, who: &Caller) -> (event: Event)
        ensures
            self.recorded_as(&event, who),
    {
        Event {
            actor: Some(who.user.name.as_str().to_owned()),
            address: who.from,
            action: self.action_word().to_owned(),
            target: Some(self.target_words(&who.user.name)),
            detail: self.detail_words(),
        }
    }
}

// --- Signing in ----------------------------------------------------------------------------------

/// What comes of a sign-in: the answer, and what there is to record of it.
#[derive(Debug)]
pub struct LoggedIn {
    /// Who signed in, and the cookie that they are signed in with.
    pub answer: Result<(Caller, String), ApiError>,
    pub event: Option<Event>,
}

/// This is what a sign-in as `name` is answered.
pub open spec fn login_answers(
    signed_in: Result<(String, User), Refused>,
    name: Seq<char>,
    from: Ip,
    done: &LoggedIn,
) -> bool {
    match signed_in {
        Ok((token, user)) => {
            &&& done.answer matches Ok((caller, cookie))
            &&& caller.user == user
            &&& caller.from == Some(from)
            &&& cookie@ == set_cookie(token@, COOKIE_LIFETIME as int)
            &&& done.event matches Some(event)
            &&& Act::Login.recorded_as(&event, &caller)
        },
        Err(refused) => {
            &&& done.answer == Err::<(Caller, String), ApiError>(ApiError::Refused(refused))
            &&& match refused {
                Refused::TotpNeeded => done.event is None,
                _ => done.event matches Some(event) && event.is(
                    None,
                    from,
                    "login.fail"@,
                    name,
                    refused.says(),
                ),
            }
        },
    }
}

/// Answer a sign-in as `name`. Asking for the second factor is not a failure
/// yet, so nothing is recorded of it.
pub fn login(signed_in: Result<(String, User), Refused>, name: &str, from: Ip) -> (done: LoggedIn)
    ensures
        login_answers(signed_in, name@, from, &done),
{
    match signed_in {
        Ok((token, user)) => {
            let caller = Caller { user, from: Some(from) };
            let event = Act::Login.event(&caller);
            let cookie = session_cookie(&token, COOKIE_LIFETIME);
            LoggedIn { answer: Ok((caller, cookie)), event: Some(event) }
        },
        Err(Refused::TotpNeeded) => LoggedIn {
            answer: Err(ApiError::Refused(Refused::TotpNeeded)),
            event: None,
        },
        Err(refused) => {
            let event = Event {
                actor: None,
                address: Some(from),
                action: "login.fail".to_owned(),
                target: Some(name.to_owned()),
                detail: Some(refused.message()),
            };
            LoggedIn { answer: Err(ApiError::Refused(refused)), event: Some(event) }
        },
    }
}

// --- Devices -------------------------------------------------------------------------------------
//
// Administrators see every device and manage them; everyone sees the devices
// their grants let them at, with their role on each.

/// The role on device `id` that these grants give.
pub open spec fn role_in(roles: Seq<Reachable>, id: i64) -> Option<Role>
    decreases roles.len(),
{
    if roles.len() == 0 {
        None
    } else if roles.last().id == id {
        Some(roles.last().role)
    } else {
        role_in(roles.drop_last(), id)
    }
}

fn role_on(roles: &[Reachable], id: i64) -> (role: Option<Role>)
    ensures
        role == role_in(roles@, id),
{
    let mut n: usize = roles.len();
    assert(roles@.take(n as int) =~= roles@);
    while n > 0
        invariant
            n <= roles@.len(),
            role_in(roles@, id) == role_in(roles@.take(n as int), id),
        decreases n,
    {
        assert(roles@.take(n as int).drop_last() =~= roles@.take(n - 1));
        n = n - 1;
        if roles[n].id == id {
            return Some(roles[n].role);
        }
    }
    None
}

impl Device {
    /// The same device, shown as online or not, with this role on it.
    pub open spec fn seen_as(&self, device: &Device, online: bool, role: Option<Role>) -> bool {
        &&& self.id == device.id
        &&& self.device_id@ == device.device_id@
        &&& self.fingerprint@ == device.fingerprint@
        &&& self.name@ == device.name@
        &&& self.group_id == device.group_id
        &&& words(self.group) == words(device.group)
        &&& self.os@ == device.os@
        &&& self.version@ == device.version@
        &&& self.enrolled_at == device.enrolled_at
        &&& self.last_seen_at == device.last_seen_at
        &&& words(self.last_address) == words(device.last_address)
        &&& self.online == online
        &&& words(self.role) == (match role {
            Some(role) => Some(role.name()),
            None => None,
        })
    }
}

/// `device` as someone sees it, if they may see it at all.
pub fn as_seen_by(user: &User, roles: &[Reachable], device: &Device, online: bool) -> (seen: Option<
    Device,
>)
    ensures
        match seen {
            Some(seen) => (user.admin || role_in(roles@, device.id) is Some) && seen.seen_as(
                device,
                online,
                role_in(roles@, device.id),
            ),
            None => !user.admin && role_in(roles@, device.id) is None,
        },
{
    let role = role_on(roles, device.id);
    if role.is_none() && !user.admin {
        return None;
    }
    let role = match role {
        Some(role) => Some(role.as_str().to_owned()),
        None => None,
    };
    Some(
        Device {
            id: device.id,
            device_id: device.device_id.as_str().to_owned(),
            fingerprint: device.fingerprint.as_str().to_owned(),
            name: device.name.as_str().to_owned(),
            group_id: device.group_id,
            group: copy_words(&device.group),
            os: device.os.as_str().to_owned(),
            version: device.version.as_str().to_owned(),
            enrolled_at: device.enrolled_at,
            last_seen_at: device.last_seen_at,
            last_address: copy_words(&device.last_address),
            online,
            role,
        },
    )
}

/// Where the devices are that someone sees, among the first `n`.
pub open spec fn seen_places(
    admin: bool,
    roles: Seq<Reachable>,
    devices: Seq<Device>,
    n: int,
) -> Seq<int>
    decreases n,
{
    if n <= 0 {
        Seq::empty()
    } else {
        let rest = seen_places(admin, roles, devices, n - 1);
        if admin || role_in(roles, devices[n - 1].id) is Some {
            rest.push(n - 1)
        } else {
            rest
        }
    }
}

/// One of the devices that someone sees.
pub open spec fn seen_at(
    seen: Device,
    roles: Seq<Reachable>,
    devices: Seq<Device>,
    online: Seq<bool>,
    place: int,
) -> bool {
    &&& 0 <= place < devices.len()
    &&& seen.seen_as(&devices[place], online[place], role_in(roles, devices[place].id))
}

/// These are the devices that someone sees.
pub open spec fn all_seen(
    admin: bool,
    roles: Seq<Reachable>,
    devices: Seq<Device>,
    online: Seq<bool>,
    seen: Seq<Device>,
) -> bool {
    let places = seen_places(admin, roles, devices, devices.len() as int);
    &&& seen.len() == places.len()
    &&& forall|i: int|
        0 <= i < seen.len() ==> seen_at(#[trigger] seen[i], roles, devices, online, places[i])
}

/// The devices that someone sees; `online` says which of all are connected.
pub fn list_devices(user: &User, roles: &[Reachable], devices: &[Device], online: &[bool]) -> (seen:
    Vec<Device>)
    requires
        online@.len() == devices@.len(),
    ensures
        all_seen(user.admin, roles@, devices@, online@, seen@),
{
    let mut seen: Vec<Device> = Vec::new();
    let mut n: usize = 0;
    let ghost mut places: Seq<int> = Seq::empty();
    while n < devices.len()
        invariant
            n <= devices@.len(),
            online@.len() == devices@.len(),
            places == seen_places(user.admin, roles@, devices@, n as int),
            seen@.len() == places.len(),
            forall|i: int|
                0 <= i < seen@.len() ==> seen_at(
                    #[trigger] seen@[i],
                    roles@,
                    devices@,
                    online@,
                    places[i],
                ),
        decreases devices.len() - n,
    {
        if let Some(device) = as_seen_by(user, roles, &devices[n], online[n]) {
            seen.push(device);
            proof {
                places = places.push(n as int);
            }
        }
        n = n + 1;
    }
    seen
}

/// One device, for someone who may see it. Not there, as far as someone
/// without a grant can tell.
pub fn get_device(
    user: &User,
    roles: &[Reachable],
    device: Result<Device, Refused>,
    online: bool,
) -> (seen: Result<Device, ApiError>)
    ensures
        match device {
            Ok(device) => if user.admin || role_in(roles@, device.id) is Some {
                seen matches Ok(seen) && seen.seen_as(&device, online, role_in(roles@, device.id))
            } else {
                seen matches Err(error) && error == ApiError::Refused(Refused::NotFound)
            },
            Err(refused) => seen matches Err(error) && error == ApiError::Refused(refused),
        },
{
    match device {
        Ok(device) => match as_seen_by(user, roles, &device, online) {
            Some(seen) => Ok(seen),
            None => Err(ApiError::Refused(Refused::NotFound)),
        },
        Err(refused) => Err(ApiError::Refused(refused)),
    }
}

/// The commands that enroll a device with a token: for a shell, and for the
/// installer.
pub fn install_commands(server: &ServerInfo, token: &str) -> (commands: (String, String))
    ensures
        commands.0@ == "nearhand-agent install --server "@ + server.address@
            + " --server-fingerprint "@ + server.fingerprint@ + " --token "@ + token@,
        commands.1@ == "msiexec /i nearhand-agent.msi SERVER="@ + server.address@
            + " SERVER_FINGERPRINT="@ + server.fingerprint@ + " ENROLL_TOKEN="@ + token@,
{
    let mut install = "nearhand-agent install --server ".to_owned();
    install.append(&server.address);
    install.append(" --server-fingerprint ");
    install.append(&server.fingerprint);
    install.append(" --token ");
    install.append(token);
    let mut msi = "msiexec /i nearhand-agent.msi SERVER=".to_owned();
    msi.append(&server.address);
    msi.append(" SERVER_FINGERPRINT=");
    msi.append(&server.fingerprint);
    msi.append(" ENROLL_TOKEN=");
    msi.append(token);
    (install, msi)
}

// --- The web viewer ------------------------------------------------------------------------------

/// Where the web viewer connects, and the certificate hashes its browser must
/// accept: the one there is, if the server's certificate is self-signed.
pub fn webtransport(server: &ServerInfo, hash: Option<&[u8]>) -> (web: (String, Vec<String>))
    ensures
        web.0@ == "https://"@ + server.address@ + accepted_path(),
        match hash {
            Some(hash) => web.1@.len() == 1 && web.1@[0]@ == hex_of(hash@),
            None => web.1@.len() == 0,
        },
{
    let mut url = "https://".to_owned();
    url.append(&server.address);
    url.append(super::webtransport::path());
    let mut hashes: Vec<String> = Vec::new();
    if let Some(hash) = hash {
        hashes.push(hex(hash));
    }
    (url, hashes)
}

/// Where device `id` first is among those someone may reach; their number
/// where it is not.
pub open spec fn reachable_at(reachable: Seq<Reachable>, id: i64, from: int) -> int
    decreases reachable.len() - from,
{
    if from >= reachable.len() {
        reachable.len() as int
    } else if reachable[from].id == id {
        from
    } else {
        reachable_at(reachable, id, from + 1)
    }
}

/// This is what a web viewer gets that wants a grant for device `id`.
pub open spec fn grant_is_for(
    reachable: Seq<Reachable>,
    id: i64,
    who: &Caller,
    granted: &Result<Reachable, (ApiError, Event)>,
) -> bool {
    let i = reachable_at(reachable, id, 0);
    if 0 <= i < reachable.len() {
        granted matches Ok(device) && device == reachable[i]
    } else {
        &&& granted matches Err((error, event))
        &&& error == ApiError::Refused(Refused::NotFound)
        &&& (Act::SessionRefuse { id }).recorded_as(event, who)
    }
}

/// The device that a web viewer gets a grant for. Without a grant it is as if
/// the device were not there, which says nothing about it; that is recorded.
pub fn device_grant(reachable: &[Reachable], id: i64, who: &Caller) -> (granted: Result<
    Reachable,
    (ApiError, Event),
>)
    ensures
        grant_is_for(reachable@, id, who, &granted),
{
    let mut i: usize = 0;
    while i < reachable.len() && reachable[i].id != id
        invariant
            i <= reachable@.len(),
            reachable_at(reachable@, id, 0) == reachable_at(reachable@, id, i as int),
        decreases reachable.len() - i,
    {
        i = i + 1;
    }
    if i < reachable.len() {
        Ok(reachable[i])
    } else {
        let act = Act::SessionRefuse { id };
        Err((ApiError::Refused(Refused::NotFound), act.event(who)))
    }
}

/// What a web viewer presents to a device: what a native viewer gets from the
/// QUIC side with an API token.
#[derive(Debug)]
pub struct WebGrant {
    pub device_id: String,
    pub fingerprint: String,
    pub role: String,
    /// The signed grant, in hex.
    pub grant: String,
}

impl WebGrant {
    /// This is for `device`.
    pub open spec fn shows(&self, device: &Reachable, grant: Seq<u8>) -> bool {
        &&& self.device_id@ == device.number.written()
        &&& self.fingerprint@ == hex_of(device.fingerprint@)
        &&& self.role@ == device.role.name()
        &&& self.grant@ == hex_of(grant)
    }
}

/// The answer to someone who gets a grant for `device`, once it is signed and
/// encoded, and what to record of it. A grant that could not be signed is
/// none, and not on record.
pub fn device_granted(device: &Reachable, signed: Option<&[u8]>, who: &Caller) -> (granted: Result<
    (WebGrant, Event),
    ApiError,
>)
    ensures
        match signed {
            Some(signed) => {
                &&& granted matches Ok((grant, event))
                &&& grant.shows(device, signed@)
                &&& (Act::SessionGrant { device: device.number, level: device.role }).recorded_as(
                    &event,
                    who,
                )
            },
            None => granted matches Err(ApiError::Refused(refused)) && refused.is_internal(),
        },
{
    match signed {
        Some(signed) => {
            let act = Act::SessionGrant { device: device.number, level: device.role };
            let grant = WebGrant {
                device_id: device.number.text(),
                fingerprint: hex(device.fingerprint.as_bytes()),
                role: device.role.as_str().to_owned(),
                grant: hex(signed),
            };
            Ok((grant, act.event(who)))
        },
        None => Err(ApiError::Refused(internal())),
    }
}

/// A WebSocket carries the console's cookie, so it must come from the
/// console: another site must not tunnel through this server.
pub fn may_relay(headers: &Headers) -> (allowed: Result<(), ApiError>)
    ensures
        match allowed {
            Ok(()) => from_host(words(headers.origin), words(headers.host)),
            Err(error) => !from_host(words(headers.origin), words(headers.host)) && error
                == ApiError::CrossSite,
        },
{
    if same_origin(headers) {
        Ok(())
    } else {
        Err(ApiError::CrossSite)
    }
}

/// What is wrong with a message that is none.
#[derive(Debug, Clone, Copy, PartialEq, Eq, Structural)]
pub enum NotFramed {
    NoHeader,
    CutShort,
}

/// The body of one length-prefixed message, as the wire carries them: behind
/// a header of `header` bytes that says it is `body` bytes long. What comes
/// after it is not looked at.
pub fn framed(bytes: &[u8], header: usize, body: usize) -> (inside: Result<&[u8], NotFramed>)
    ensures
        match inside {
            Ok(inside) => header + body <= bytes@.len() && inside@ == bytes@.subrange(
                header as int,
                header + body,
            ),
            Err(NotFramed::NoHeader) => bytes@.len() < header,
            Err(NotFramed::CutShort) => header <= bytes@.len() < header + body,
        },
{
    if bytes.len() < header {
        Err(NotFramed::NoHeader)
    } else if bytes.len() - header < body {
        Err(NotFramed::CutShort)
    } else {
        Ok(slice_subrange(bytes, header, header + body))
    }
}

// --- Releases ------------------------------------------------------------------------------------

/// The package and signature file of an upload, which must both be there.
pub fn upload(package: Option<Vec<u8>>, signature: Option<String>) -> (sent: Result<
    (Vec<u8>, String),
    ApiError,
>)
    ensures
        match (package, signature) {
            (Some(package), Some(signature)) => sent matches Ok(both) && both == (
                package,
                signature,
            ),
            _ => sent matches Err(ApiError::Refused(Refused::Invalid(why))) && why@
                == "send the package and its signature file, as the fields `package` and `signature`"@,
        },
{
    match (package, signature) {
        (Some(package), Some(signature)) => Ok((package, signature)),
        _ => Err(
            ApiError::Refused(
                Refused::Invalid(
                    "send the package and its signature file, as the fields `package` and `signature`".to_owned(),
                ),
            ),
        ),
    }
}

/// `nearhand-agent 0.2.0 (windows-x86_64)`, for the audit log.
pub open spec fn release_words(release: Listed) -> Seq<char> {
    release.product@ + " "@ + release.version@ + " ("@ + release.platform@ + ")"@
}

pub fn release_name(release: &Listed) -> (name: String)
    ensures
        name@ == release_words(*release),
{
    let mut name = release.product.as_str().to_owned();
    name.append(" ");
    name.append(&release.version);
    name.append(" (");
    name.append(&release.platform);
    name.append(")");
    name
}

// --- What the API comes to -------------------------------------------------------------------

/// Only health, setup and signing in and out are open to anyone; one's own
/// account, what one may see of the devices and the way to them to anyone who
/// is signed in; and everything else to administrators.
pub proof fn lemma_who_may_ask(endpoint: Endpoint)
    ensures
        endpoint.routed().guard == Guard::Anyone <==> endpoint is Health || endpoint is Setup
            || endpoint is Login || endpoint is Logout,
        endpoint.routed().guard == Guard::SignedIn <==> endpoint is Me || endpoint is ChangePassword
            || endpoint is TotpBegin || endpoint is TotpConfirm || endpoint is TotpDisable
            || endpoint is ListTokens || endpoint is NewToken || endpoint is DeleteToken
            || endpoint is Server || endpoint is ListDevices || endpoint is GetDevice
            || endpoint is DeviceGrant || endpoint is Webtransport || endpoint is Relay,
{
}

/// What manages accounts, devices, groups, grants, releases or tokens is done
/// for no one but an administrator, and as that administrator; what needs
/// signing in for no one who has not.
pub proof fn lemma_only_administrators_manage(
    endpoint: Endpoint,
    caller: Result<Caller, ApiError>,
    allowed: Result<Option<Caller>, ApiError>,
)
    requires
        endpoint.lets_in(caller, allowed),
    ensures
        endpoint !is Health && endpoint !is Setup && endpoint !is Login && endpoint !is Logout
            && caller is Err ==> allowed is Err,
        allowed matches Ok(who) ==> (who matches Some(who) ==> caller matches Ok(asks) && asks == who),
        (endpoint is ListUsers || endpoint is CreateUser || endpoint is UpdateUser
            || endpoint is DeleteUser || endpoint is UpdateDevice || endpoint is DeleteDevice
            || endpoint is ListGroups || endpoint is CreateGroup || endpoint is RenameGroup
            || endpoint is DeleteGroup || endpoint is ListEnrollTokens || endpoint is NewEnrollToken
            || endpoint is DeleteEnrollToken || endpoint is ListUserGroups
            || endpoint is CreateUserGroup || endpoint is RenameUserGroup
            || endpoint is DeleteUserGroup || endpoint is AddMember || endpoint is RemoveMember
            || endpoint is ListGrants || endpoint is SetGrant || endpoint is DeleteGrant
            || endpoint is AuditLog || endpoint is ListReleases || endpoint is UploadRelease
            || endpoint is DeleteRelease || endpoint is OfferRelease
            || endpoint is WithdrawRelease) && allowed is Ok ==> (caller matches Ok(asks)
            && asks.user.admin),
        caller matches Ok(asks) && asks.user.admin ==> allowed is Ok,
{
}

/// What only reads is asked for with `GET`, and nothing else is: a request
/// that is safe to repeat changes nothing. What is made is answered with 201,
/// what is gone or has nothing to say with 204.
pub proof fn lemma_reading_changes_nothing(endpoint: Endpoint)
    ensures
        endpoint.routed().method.safe() <==> endpoint is Health || endpoint is Me
            || endpoint is ListTokens || endpoint is ListUsers || endpoint is Server
            || endpoint is ListDevices || endpoint is GetDevice || endpoint is ListGroups
            || endpoint is ListEnrollTokens || endpoint is ListUserGroups || endpoint is ListGrants
            || endpoint is AuditLog || endpoint is ListReleases || endpoint is Webtransport
            || endpoint is Relay,
        endpoint.routed().method.safe() ==> endpoint.routed().method == Method::Get,
        endpoint.routed().method == Method::Delete <==> endpoint is DeleteToken
            || endpoint is DeleteUser || endpoint is DeleteDevice || endpoint is DeleteGroup
            || endpoint is DeleteEnrollToken || endpoint is DeleteUserGroup
            || endpoint is RemoveMember || endpoint is DeleteGrant || endpoint is DeleteRelease
            || endpoint is WithdrawRelease,
        endpoint.routed().method == Method::Patch <==> endpoint is UpdateUser
            || endpoint is UpdateDevice || endpoint is RenameGroup || endpoint is RenameUserGroup,
        endpoint.routed().method == Method::Put <==> endpoint is AddMember,
        endpoint.routed().status == 201 <==> endpoint is NewToken || endpoint is CreateUser
            || endpoint is CreateGroup || endpoint is NewEnrollToken || endpoint is CreateUserGroup
            || endpoint is SetGrant || endpoint is UploadRelease,
        endpoint.routed().status == 204 <==> endpoint is Logout || endpoint is ChangePassword
            || endpoint is TotpConfirm || endpoint is TotpDisable || (
        endpoint.routed().method == Method::Delete && endpoint !is RemoveMember
            && endpoint !is WithdrawRelease),
        endpoint.routed().status == 101 <==> endpoint is Relay,
        endpoint.routed().status == 200 || endpoint.routed().status == 201
            || endpoint.routed().status == 204 || endpoint.routed().status == 101,
{
}

/// Everything is under `/api/v1/`, and one of many under the many, by its
/// number.
pub proof fn lemma_everything_has_its_place()
    ensures
        Resource::Health.located() == "/api/v1/"@ + "health"@,
        Resource::Setup.located() == "/api/v1/"@ + "setup"@,
        Resource::Login.located() == "/api/v1/"@ + "login"@,
        Resource::Logout.located() == "/api/v1/"@ + "logout"@,
        Resource::Me.located() == "/api/v1/"@ + "me"@,
        Resource::Users.located() == "/api/v1/"@ + "users"@,
        Resource::Server.located() == "/api/v1/"@ + "server"@,
        Resource::Devices.located() == "/api/v1/"@ + "devices"@,
        Resource::DeviceGroups.located() == "/api/v1/"@ + "device-groups"@,
        Resource::EnrollTokens.located() == "/api/v1/"@ + "enroll-tokens"@,
        Resource::UserGroups.located() == "/api/v1/"@ + "user-groups"@,
        Resource::Grants.located() == "/api/v1/"@ + "grants"@,
        Resource::Audit.located() == "/api/v1/"@ + "audit"@,
        Resource::Releases.located() == "/api/v1/"@ + "releases"@,
        Resource::Webtransport.located() == "/api/v1/"@ + "webtransport"@,
        Resource::Relay.located() == "/api/v1/"@ + "relay"@,
        Resource::Token.located() == Resource::Tokens.located() + "/{id}"@,
        Resource::User.located() == Resource::Users.located() + "/{id}"@,
        Resource::Device.located() == Resource::Devices.located() + "/{id}"@,
        Resource::DeviceGroup.located() == Resource::DeviceGroups.located() + "/{id}"@,
        Resource::EnrollToken.located() == Resource::EnrollTokens.located() + "/{id}"@,
        Resource::UserGroup.located() == Resource::UserGroups.located() + "/{id}"@,
        Resource::Grant.located() == Resource::Grants.located() + "/{id}"@,
        Resource::Release.located() == Resource::Releases.located() + "/{id}"@,
        Resource::Password.located() == Resource::Me.located() + "/password"@,
        Resource::Totp.located() == Resource::Me.located() + "/totp"@,
        Resource::Tokens.located() == Resource::Me.located() + "/tokens"@,
        Resource::TotpConfirm.located() == Resource::Totp.located() + "/confirm"@,
        Resource::TotpDisable.located() == Resource::Totp.located() + "/disable"@,
        Resource::Member.located() == Resource::UserGroup.located() + "/members/{user}"@,
        Resource::Offer.located() == Resource::Release.located() + "/offer"@,
        Resource::DeviceGrant.located() == Resource::Device.located() + "/grant"@,
{
    reveal_strlit("/api/v1/");
    reveal_strlit("/{id}");
    reveal_strlit("health");
    reveal_strlit("setup");
    reveal_strlit("login");
    reveal_strlit("logout");
    reveal_strlit("me");
    reveal_strlit("users");
    reveal_strlit("server");
    reveal_strlit("devices");
    reveal_strlit("device-groups");
    reveal_strlit("enroll-tokens");
    reveal_strlit("user-groups");
    reveal_strlit("grants");
    reveal_strlit("audit");
    reveal_strlit("releases");
    reveal_strlit("webtransport");
    reveal_strlit("relay");
    reveal_strlit("/password");
    reveal_strlit("/totp");
    reveal_strlit("/tokens");
    reveal_strlit("/confirm");
    reveal_strlit("/disable");
    reveal_strlit("/members/{user}");
    reveal_strlit("/offer");
    reveal_strlit("/grant");
    reveal_strlit("/api/v1/health");
    reveal_strlit("/api/v1/setup");
    reveal_strlit("/api/v1/login");
    reveal_strlit("/api/v1/logout");
    reveal_strlit("/api/v1/me");
    reveal_strlit("/api/v1/users");
    reveal_strlit("/api/v1/server");
    reveal_strlit("/api/v1/devices");
    reveal_strlit("/api/v1/device-groups");
    reveal_strlit("/api/v1/enroll-tokens");
    reveal_strlit("/api/v1/user-groups");
    reveal_strlit("/api/v1/grants");
    reveal_strlit("/api/v1/audit");
    reveal_strlit("/api/v1/releases");
    reveal_strlit("/api/v1/webtransport");
    reveal_strlit("/api/v1/relay");
    reveal_strlit("/api/v1/me/password");
    reveal_strlit("/api/v1/me/totp");
    reveal_strlit("/api/v1/me/tokens");
    reveal_strlit("/api/v1/me/totp/confirm");
    reveal_strlit("/api/v1/me/totp/disable");
    reveal_strlit("/api/v1/me/tokens/{id}");
    reveal_strlit("/api/v1/users/{id}");
    reveal_strlit("/api/v1/devices/{id}");
    reveal_strlit("/api/v1/device-groups/{id}");
    reveal_strlit("/api/v1/enroll-tokens/{id}");
    reveal_strlit("/api/v1/user-groups/{id}");
    reveal_strlit("/api/v1/grants/{id}");
    reveal_strlit("/api/v1/releases/{id}");
    reveal_strlit("/api/v1/user-groups/{id}/members/{user}");
    reveal_strlit("/api/v1/releases/{id}/offer");
    reveal_strlit("/api/v1/devices/{id}/grant");
    assert(Resource::Health.located() =~= "/api/v1/"@ + "health"@);
    assert(Resource::Setup.located() =~= "/api/v1/"@ + "setup"@);
    assert(Resource::Login.located() =~= "/api/v1/"@ + "login"@);
    assert(Resource::Logout.located() =~= "/api/v1/"@ + "logout"@);
    assert(Resource::Me.located() =~= "/api/v1/"@ + "me"@);
    assert(Resource::Users.located() =~= "/api/v1/"@ + "users"@);
    assert(Resource::Server.located() =~= "/api/v1/"@ + "server"@);
    assert(Resource::Devices.located() =~= "/api/v1/"@ + "devices"@);
    assert(Resource::DeviceGroups.located() =~= "/api/v1/"@ + "device-groups"@);
    assert(Resource::EnrollTokens.located() =~= "/api/v1/"@ + "enroll-tokens"@);
    assert(Resource::UserGroups.located() =~= "/api/v1/"@ + "user-groups"@);
    assert(Resource::Grants.located() =~= "/api/v1/"@ + "grants"@);
    assert(Resource::Audit.located() =~= "/api/v1/"@ + "audit"@);
    assert(Resource::Releases.located() =~= "/api/v1/"@ + "releases"@);
    assert(Resource::Webtransport.located() =~= "/api/v1/"@ + "webtransport"@);
    assert(Resource::Relay.located() =~= "/api/v1/"@ + "relay"@);
    assert(Resource::Token.located() =~= Resource::Tokens.located() + "/{id}"@);
    assert(Resource::User.located() =~= Resource::Users.located() + "/{id}"@);
    assert(Resource::Device.located() =~= Resource::Devices.located() + "/{id}"@);
    assert(Resource::DeviceGroup.located() =~= Resource::DeviceGroups.located() + "/{id}"@);
    assert(Resource::EnrollToken.located() =~= Resource::EnrollTokens.located() + "/{id}"@);
    assert(Resource::UserGroup.located() =~= Resource::UserGroups.located() + "/{id}"@);
    assert(Resource::Grant.located() =~= Resource::Grants.located() + "/{id}"@);
    assert(Resource::Release.located() =~= Resource::Releases.located() + "/{id}"@);
    assert(Resource::Password.located() =~= Resource::Me.located() + "/password"@);
    assert(Resource::Totp.located() =~= Resource::Me.located() + "/totp"@);
    assert(Resource::Tokens.located() =~= Resource::Me.located() + "/tokens"@);
    assert(Resource::TotpConfirm.located() =~= Resource::Totp.located() + "/confirm"@);
    assert(Resource::TotpDisable.located() =~= Resource::Totp.located() + "/disable"@);
    assert(Resource::Member.located() =~= Resource::UserGroup.located() + "/members/{user}"@);
    assert(Resource::Offer.located() =~= Resource::Release.located() + "/offer"@);
    assert(Resource::DeviceGrant.located() =~= Resource::Device.located() + "/grant"@);
}

/// Where what is asked about is asked about: making and listing with the
/// many, changing and deleting with the one.
pub proof fn lemma_endpoints_are_where_they_belong()
    ensures
        Endpoint::ListTokens.routed().resource == Resource::Tokens,
        Endpoint::NewToken.routed().resource == Resource::Tokens,
        Endpoint::DeleteToken.routed().resource == Resource::Token,
        Endpoint::ListUsers.routed().resource == Resource::Users,
        Endpoint::CreateUser.routed().resource == Resource::Users,
        Endpoint::UpdateUser.routed().resource == Resource::User,
        Endpoint::DeleteUser.routed().resource == Resource::User,
        Endpoint::ListDevices.routed().resource == Resource::Devices,
        Endpoint::GetDevice.routed().resource == Resource::Device,
        Endpoint::UpdateDevice.routed().resource == Resource::Device,
        Endpoint::DeleteDevice.routed().resource == Resource::Device,
        Endpoint::ListGroups.routed().resource == Resource::DeviceGroups,
        Endpoint::CreateGroup.routed().resource == Resource::DeviceGroups,
        Endpoint::RenameGroup.routed().resource == Resource::DeviceGroup,
        Endpoint::DeleteGroup.routed().resource == Resource::DeviceGroup,
        Endpoint::ListEnrollTokens.routed().resource == Resource::EnrollTokens,
        Endpoint::NewEnrollToken.routed().resource == Resource::EnrollTokens,
        Endpoint::DeleteEnrollToken.routed().resource == Resource::EnrollToken,
        Endpoint::ListUserGroups.routed().resource == Resource::UserGroups,
        Endpoint::CreateUserGroup.routed().resource == Resource::UserGroups,
        Endpoint::RenameUserGroup.routed().resource == Resource::UserGroup,
        Endpoint::DeleteUserGroup.routed().resource == Resource::UserGroup,
        Endpoint::AddMember.routed().resource == Resource::Member,
        Endpoint::RemoveMember.routed().resource == Resource::Member,
        Endpoint::ListGrants.routed().resource == Resource::Grants,
        Endpoint::SetGrant.routed().resource == Resource::Grants,
        Endpoint::DeleteGrant.routed().resource == Resource::Grant,
        Endpoint::ListReleases.routed().resource == Resource::Releases,
        Endpoint::UploadRelease.routed().resource == Resource::Releases,
        Endpoint::DeleteRelease.routed().resource == Resource::Release,
        Endpoint::OfferRelease.routed().resource == Resource::Offer,
        Endpoint::WithdrawRelease.routed().resource == Resource::Offer,
        Endpoint::TotpBegin.routed().resource == Resource::Totp,
        Endpoint::TotpConfirm.routed().resource == Resource::TotpConfirm,
        Endpoint::TotpDisable.routed().resource == Resource::TotpDisable,
        Endpoint::Login.routed().resource == Resource::Login,
        Endpoint::Logout.routed().resource == Resource::Logout,
        Endpoint::Setup.routed().resource == Resource::Setup,
        Endpoint::AuditLog.routed().resource == Resource::Audit,
        Endpoint::DeviceGrant.routed().resource == Resource::DeviceGrant,
        Endpoint::Relay.routed().resource == Resource::Relay,
{
}

/// Whoever is not known is answered 401, whoever may not 403, whoever tries
/// too often 429; what is not there is 404, and what is not right 400.
pub proof fn lemma_errors_have_fitting_statuses(error: ApiError)
    ensures
        error.status() == 401 <==> error is Unauthenticated || (error matches ApiError::Refused(why)
            && (why is WrongCredentials || why is TotpNeeded || why is WrongCode)),
        error.status() == 403 <==> error is CrossSite || (error matches ApiError::Refused(why)
            && why is Forbidden),
        error.status() == 404 <==> (error matches ApiError::Refused(why) && why is NotFound),
        error.status() == 429 <==> (error matches ApiError::Refused(why) && why is TooManyAttempts),
        error.status() == 400 <==> (error matches ApiError::Refused(why) && why is Invalid),
{
}

/// A bearer token is what stands behind `Bearer `, and is none behind anything
/// else.
pub proof fn lemma_bearer_tokens_are_read(token: Seq<char>, text: Seq<char>)
    requires
        token.len() > 0,
        !is_space(token[0]) && !is_space(token.last()),
    ensures
        bearer_in(Some("Bearer "@ + token)) == Some(token),
        bearer_in(Some(text)) is Some ==> starts(text, "Bearer "@),
        bearer_in(None) is None,
{
    reveal_strlit("Bearer ");
    let said = "Bearer "@ + token;
    assert(said.take(7) =~= "Bearer "@);
    assert(said.skip(7) =~= token);
    lemma_trimmed_fixed(token);
}

/// A cookie that stands alone in its header is read back as it was set, under
/// its name and no other; where there is no cookie, none is read.
pub proof fn lemma_a_cookie_is_read(
    headers: Seq<String>,
    name: Seq<char>,
    value: Seq<char>,
    other: Seq<char>,
)
    requires
        headers.len() == 1 && headers[0]@ == name.push('=') + value,
        name.len() > 0 && !is_space(name[0]),
        value.len() > 0 && !is_space(value.last()),
        !name.contains('=') && !name.contains(';') && !value.contains(';'),
        other != name,
    ensures
        cookie_in(headers, name, 0) == Some(value),
        cookie_in(headers, other, 0) is None,
        cookie_in(Seq::empty(), name, 0) is None,
{
    reveal_with_fuel(cookie_in, 2);
    reveal_with_fuel(pair_called, 2);
    let header = headers[0]@;
    assert forall|i: int| 0 <= i < header.len() implies header[i] != ';' by {
        if i < name.len() {
            assert(header[i] == name[i]);
        } else if i > name.len() {
            assert(header[i] == value[i - name.len() - 1]);
        }
    }
    lemma_one_piece(header, ';');
    assert(header[0] == name[0] && header.last() == value.last());
    lemma_trimmed_fixed(header);
    lemma_parted(name, '=', value);
}

/// A page of this server's, whatever the case of its name, is from here; a
/// page of another host's is not, and where none is named it is not known to
/// be from elsewhere.
pub proof fn lemma_pages_are_of_their_host(
    scheme: Seq<char>,
    page: Seq<char>,
    host: Option<Seq<char>>,
)
    requires
        !scheme.contains(':'),
        page.len() > 0 && page.last() != '/',
    ensures
        from_host(Some(scheme + seq![':', '/', '/'] + page), host) <==> (host matches Some(host)
            && same_but_case(page, host)),
        from_host(Some(scheme + seq![':', '/', '/'] + page), Some(page)),
        from_host(None, host),
{
    let mark = seq![':', '/', '/'];
    let origin = scheme + mark + page;
    let end = scheme.len() as int;
    assert(origin[end] == mark[0] && origin[end + 1] == mark[1] && origin[end + 2] == mark[2]);
    assert forall|i: int| 0 <= i < end implies origin[i] != ':' by {
        assert(origin[i] == scheme[i]);
    }
    lemma_scheme_end(origin, 0, end);
    assert(origin.skip(end + 3) =~= page);
}

/// Whoever a request is from has an account that is not disabled, and has
/// shown it: with an API token of that account's that has not run out, or,
/// where there is no token, with the cookie of a session of its that has not.
pub proof fn lemma_callers_have_shown_who_they_are(
    accounts: Accounts,
    method: Method,
    headers: Headers,
    now: i64,
    i: int,
)
    requires
        caller_at(&accounts, method, &headers, now) == Ok::<int, ApiError>(i),
    ensures
        0 <= i < accounts.users@.len() && !accounts.users@[i].disabled,
        match bearer_in(words(headers.authorization)) {
            Some(token) => exists|k: int|
                {
                    &&& 0 <= k < accounts.tokens@.len()
                    &&& (#[trigger] accounts.tokens@[k]).token_hash@ == hash_of(token)
                    &&& accounts.tokens@[k].user == accounts.users@[i].id
                    &&& accounts.tokens@[k].expires_at matches Some(end) ==> now < end
                },
            None => {
                &&& cookie_in(headers.cookies@, "nearhand_session"@, 0) matches Some(token)
                &&& exists|k: int|
                    {
                        &&& 0 <= k < accounts.logins@.len()
                        &&& (#[trigger] accounts.logins@[k]).token_hash@ == hash_of(token)
                        &&& accounts.logins@[k].user == accounts.users@[i].id
                        &&& now < accounts.logins@[k].expires_at
                    }
                &&& method == Method::Get || method == Method::Head || method == Method::Options
                    || from_host(words(headers.origin), words(headers.host))
            },
        },
{
    let users = accounts.users@;
    match bearer_in(words(headers.authorization)) {
        Some(token) => {
            let k = token_at(accounts.tokens@, users, hash_of(token), now);
            lemma_api_tokens_stand_for_accounts(accounts.tokens@, users, hash_of(token), now);
            lemma_at(users, accounts.tokens@[k].user);
            lemma_token_found(accounts.tokens@, users, hash_of(token), now);
            assert(accounts.tokens@[k].user == users[i].id);
        },
        None => {
            let token = cookie_in(headers.cookies@, session_cookie_name(), 0)->Some_0;
            lemma_sessions_stand_for_accounts(accounts.logins@, users, hash_of(token), now);
        },
    }
}

proof fn lemma_token_found(
    tokens: Seq<TokenRecord>,
    users: Seq<Record>,
    hash: Seq<u8>,
    now: i64,
)
    ensures
        ({
            let k = token_at(tokens, users, hash, now);
            k >= 0 ==> k < tokens.len() && at(users, tokens[k].user) >= 0 && !users[at(
                users,
                tokens[k].user,
            )].disabled
        }),
    decreases tokens.len(),
{
    if tokens.len() > 0 {
        lemma_token_found(tokens.drop_last(), users, hash, now);
    }
}

/// Whoever is identified is told as their account says, and whoever is not
/// changes nothing.
pub proof fn lemma_callers_are_who_their_account_says(
    before: Accounts,
    after: Accounts,
    method: Method,
    headers: Headers,
    from: Option<Ip>,
    now: i64,
    caller: Result<Caller, ApiError>,
)
    requires
        Caller::identified(&before, &after, method, &headers, from, now, caller),
    ensures
        caller matches Ok(caller) ==> exists|i: int|
            {
                &&& 0 <= i < before.users@.len()
                &&& caller.user.id == (#[trigger] before.users@[i]).id
                &&& caller.user.name@ == before.users@[i].name@
                &&& caller.user.admin == before.users@[i].admin
                &&& !before.users@[i].disabled
            },
        caller is Err ==> after.tokens == before.tokens,
        after.users == before.users && after.logins == before.logins,
{
    if let Ok(shown) = caller {
        let i = caller_at(&before, method, &headers, now)->Ok_0;
        lemma_callers_have_shown_who_they_are(before, method, headers, now, i);
        assert(shown.user.id == before.users@[i].id);
    }
}

/// The cookie that is set holds the token, for this server's own pages over
/// HTTPS only and out of reach of scripts; an empty one, that is over at once,
/// clears it. Signing in sets it for twelve hours.
pub proof fn lemma_the_cookie_is_guarded(
    token: Seq<char>,
    max_age: int,
    signed_in: Result<(String, User), Refused>,
    name: Seq<char>,
    from: Ip,
    done: LoggedIn,
)
    requires
        login_answers(signed_in, name, from, &done),
    ensures
        starts(set_cookie(token, max_age), "nearhand_session="@ + token + "; "@),
        holds(set_cookie(token, max_age), "; HttpOnly; Secure; SameSite=Strict; "@),
        set_cookie(token, max_age) == set_cookie(token, 0).drop_last() + signed(max_age),
        signed_in matches Ok((token, user)) ==> (done.answer matches Ok((caller, cookie))
            && caller.user == user && cookie@ == set_cookie(token@, 43_200)),
        signed_in is Err ==> done.answer is Err,
        done.event is None <==> (signed_in matches Err(refused) && refused is TotpNeeded),
        done.event matches Some(event) ==> event.action@ == (if signed_in is Ok {
            "login"@
        } else {
            "login.fail"@
        }) && words(event.target) == Some(
            match signed_in {
                Ok((token, user)) => user.name@,
                Err(refused) => name,
            },
        ),
{
    reveal_strlit("nearhand_session=");
    reveal_strlit("nearhand_session");
    reveal_strlit("=");
    reveal_strlit("; ");
    reveal_strlit("; HttpOnly; Secure; SameSite=Strict; ");
    reveal_strlit("; Path=/; HttpOnly; Secure; SameSite=Strict; Max-Age=");
    let cookie = set_cookie(token, max_age);
    let first = "nearhand_session="@ + token + "; "@;
    assert("nearhand_session="@ =~= "nearhand_session"@ + "="@);
    assert(cookie.take(first.len() as int) =~= first);
    let guards = "; HttpOnly; Secure; SameSite=Strict; "@;
    let i = 17int + token.len() + 8;
    assert(cookie.subrange(i, i + guards.len()) =~= guards);
    assert(signed(0).len() == 1);
    assert(set_cookie(token, 0).drop_last() + signed(max_age) =~= cookie);
}

/// The role that someone has on a device is the one their grant says, where
/// each device is there once; without one there is none.
pub proof fn lemma_roles_are_as_granted(roles: Seq<Reachable>, i: int, id: i64)
    ensures
        role_in(roles, id) is Some <==> exists|k: int|
            0 <= k < roles.len() && (#[trigger] roles[k]).id == id,
        0 <= i < roles.len() && (forall|k: int|
            0 <= k < roles.len() && k != i ==> (#[trigger] roles[k]).id != roles[i].id) ==> role_in(
            roles,
            roles[i].id,
        ) == Some(roles[i].role),
    decreases roles.len(),
{
    if roles.len() > 0 {
        let less = roles.drop_last();
        lemma_roles_are_as_granted(less, i, id);
        assert(roles[roles.len() - 1] == roles.last());
        assert(forall|k: int| 0 <= k < less.len() ==> less[k] == #[trigger] roles[k]);
        if exists|k: int| 0 <= k < less.len() && (#[trigger] less[k]).id == id {
            let k = choose|k: int| 0 <= k < less.len() && (#[trigger] less[k]).id == id;
            assert(roles[k].id == id);
        }
        if exists|k: int| 0 <= k < roles.len() && (#[trigger] roles[k]).id == id {
            let k = choose|k: int| 0 <= k < roles.len() && (#[trigger] roles[k]).id == id;
            if k < less.len() {
                assert(less[k].id == id);
            }
        }
        if 0 <= i < less.len() && (forall|k: int|
            0 <= k < roles.len() && k != i ==> (#[trigger] roles[k]).id != roles[i].id) {
            assert(roles[roles.len() - 1].id != roles[i].id);
            lemma_roles_are_as_granted(less, i, roles[i].id);
        }
    }
}

/// An administrator sees every device; anyone else those that they have a role
/// on, and no other. Each is shown once, in the order they come, as it is.
pub proof fn lemma_devices_are_seen_by_whom_they_are_for(
    admin: bool,
    roles: Seq<Reachable>,
    devices: Seq<Device>,
    online: Seq<bool>,
    seen: Seq<Device>,
    d: int,
)
    requires
        all_seen(admin, roles, devices, online, seen),
        0 <= d < devices.len(),
    ensures
        admin ==> seen.len() == devices.len(),
        admin || (exists|k: int| 0 <= k < roles.len() && (#[trigger] roles[k]).id == devices[d].id)
            ==> exists|i: int|
            0 <= i < seen.len() && (#[trigger] seen[i]).id == devices[d].id && seen[i].online
                == online[d],
        forall|i: int|
            0 <= i < seen.len() ==> exists|k: int|
                {
                    &&& 0 <= k < devices.len()
                    &&& (#[trigger] devices[k]).id == (#[trigger] seen[i]).id
                    &&& admin || exists|r: int|
                        0 <= r < roles.len() && (#[trigger] roles[r]).id == devices[k].id
                },
{
    let n = devices.len() as int;
    let places = seen_places(admin, roles, devices, n);
    lemma_seen_places(admin, roles, devices, n);
    lemma_roles_are_as_granted(roles, 0, devices[d].id);
    if admin || role_in(roles, devices[d].id) is Some {
        let i = choose|i: int| 0 <= i < places.len() && places[i] == d;
        assert(seen_at(seen[i], roles, devices, online, places[i]));
        assert(seen[i].id == devices[d].id);
    }
    assert forall|i: int| 0 <= i < seen.len() implies exists|k: int|
        {
            &&& 0 <= k < devices.len()
            &&& (#[trigger] devices[k]).id == (#[trigger] seen[i]).id
            &&& admin || exists|r: int|
                0 <= r < roles.len() && (#[trigger] roles[r]).id == devices[k].id
        } by {
        let k = places[i];
        assert(seen_at(seen[i], roles, devices, online, places[i]));
        lemma_roles_are_as_granted(roles, 0, devices[k].id);
        assert(devices[k].id == seen[i].id);
    }
}

proof fn lemma_seen_places(admin: bool, roles: Seq<Reachable>, devices: Seq<Device>, n: int)
    requires
        0 <= n <= devices.len(),
    ensures
        ({
            let places = seen_places(admin, roles, devices, n);
            &&& admin ==> places.len() == n
            &&& forall|i: int|
                0 <= i < places.len() ==> 0 <= #[trigger] places[i] < n && (admin || role_in(
                    roles,
                    devices[places[i]].id,
                ) is Some)
            &&& forall|d: int|
                0 <= d < n && (admin || role_in(roles, (#[trigger] devices[d]).id) is Some)
                    ==> exists|i: int| 0 <= i < places.len() && #[trigger] places[i] == d
        }),
    decreases n,
{
    if n > 0 {
        lemma_seen_places(admin, roles, devices, n - 1);
        let less = seen_places(admin, roles, devices, n - 1);
        let places = seen_places(admin, roles, devices, n);
        assert forall|d: int|
            0 <= d < n && (admin || role_in(roles, (#[trigger] devices[d]).id) is Some) implies exists|
            i: int,
        |
            0 <= i < places.len() && #[trigger] places[i] == d by {
            if d < n - 1 {
                let i = choose|i: int| 0 <= i < less.len() && #[trigger] less[i] == d;
                assert(places[i] == d);
            } else {
                assert(places[places.len() - 1] == d);
            }
        }
    }
}

/// A web viewer gets a grant for the device it asked for and has a role on,
/// with that role; for any other it is told that there is none, and that is on
/// record.
pub proof fn lemma_web_grants_are_for_reachable_devices(
    reachable: Seq<Reachable>,
    id: i64,
    who: Caller,
    granted: Result<Reachable, (ApiError, Event)>,
)
    requires
        grant_is_for(reachable, id, &who, &granted),
    ensures
        granted matches Ok(device) ==> device.id == id && reachable.contains(device),
        granted is Ok <==> exists|k: int| 0 <= k < reachable.len() && (#[trigger] reachable[k]).id == id,
        granted matches Err((error, event)) ==> error.status() == 404 && event.action@
            == "session.refuse"@ && words(event.actor) == Some(who.user.name@),
{
    lemma_reachable_at(reachable, id, 0);
}

/// Where a device is among those that someone reaches.
pub proof fn lemma_reachable_at(reachable: Seq<Reachable>, id: i64, from: int)
    requires
        0 <= from,
    ensures
        ({
            let i = reachable_at(reachable, id, from);
            &&& i < reachable.len() ==> from <= i && reachable[i].id == id
            &&& i >= reachable.len() ==> forall|k: int|
                from <= k < reachable.len() ==> (#[trigger] reachable[k]).id != id
        }),
    decreases reachable.len() - from,
{
    if from < reachable.len() && reachable[from].id != id {
        lemma_reachable_at(reachable, id, from + 1);
    }
}

/// What is done is called in the log after the thing and what was done to it.
pub proof fn lemma_acts_are_called_what_they_are(act: Act)
    ensures
        act is TokenCreate ==> act.action() == "token."@ + "create"@,
        act is TokenDelete ==> act.action() == "token."@ + "delete"@,
        act is UserCreate ==> act.action() == "user."@ + "create"@,
        act is UserUpdate ==> act.action() == "user."@ + "update"@,
        act is UserDelete ==> act.action() == "user."@ + "delete"@,
        act is DeviceUpdate ==> act.action() == "device."@ + "update"@,
        act is DeviceDelete ==> act.action() == "device."@ + "delete"@,
        act is DeviceGroupCreate ==> act.action() == "device_group."@ + "create"@,
        act is DeviceGroupRename ==> act.action() == "device_group."@ + "rename"@,
        act is DeviceGroupDelete ==> act.action() == "device_group."@ + "delete"@,
        act is EnrollTokenCreate ==> act.action() == "enroll_token."@ + "create"@,
        act is EnrollTokenDelete ==> act.action() == "enroll_token."@ + "delete"@,
        act is UserGroupCreate ==> act.action() == "user_group."@ + "create"@,
        act is UserGroupRename ==> act.action() == "user_group."@ + "rename"@,
        act is UserGroupDelete ==> act.action() == "user_group."@ + "delete"@,
        act is UserGroupAdd ==> act.action() == "user_group."@ + "add"@,
        act is UserGroupRemove ==> act.action() == "user_group."@ + "remove"@,
        act is GrantSet ==> act.action() == "grant."@ + "set"@,
        act is GrantDelete ==> act.action() == "grant."@ + "delete"@,
        act is SessionRefuse ==> act.action() == "session."@ + "refuse"@,
        act is SessionGrant ==> act.action() == "session."@ + "grant"@,
        act is ReleaseUpload ==> act.action() == "release."@ + "upload"@,
        act is ReleaseOffer ==> act.action() == "release."@ + "offer"@,
        act is ReleaseWithdraw ==> act.action() == "release."@ + "withdraw"@,
        act is ReleaseDelete ==> act.action() == "release."@ + "delete"@,
{
    reveal_strlit("token.");
    reveal_strlit("user.");
    reveal_strlit("device.");
    reveal_strlit("device_group.");
    reveal_strlit("enroll_token.");
    reveal_strlit("user_group.");
    reveal_strlit("grant.");
    reveal_strlit("session.");
    reveal_strlit("release.");
    reveal_strlit("create");
    reveal_strlit("delete");
    reveal_strlit("update");
    reveal_strlit("rename");
    reveal_strlit("add");
    reveal_strlit("remove");
    reveal_strlit("set");
    reveal_strlit("refuse");
    reveal_strlit("grant");
    reveal_strlit("upload");
    reveal_strlit("offer");
    reveal_strlit("withdraw");
    reveal_strlit("token.create");
    reveal_strlit("token.delete");
    reveal_strlit("user.create");
    reveal_strlit("user.update");
    reveal_strlit("user.delete");
    reveal_strlit("device.update");
    reveal_strlit("device.delete");
    reveal_strlit("device_group.create");
    reveal_strlit("device_group.rename");
    reveal_strlit("device_group.delete");
    reveal_strlit("enroll_token.create");
    reveal_strlit("enroll_token.delete");
    reveal_strlit("user_group.create");
    reveal_strlit("user_group.rename");
    reveal_strlit("user_group.delete");
    reveal_strlit("user_group.add");
    reveal_strlit("user_group.remove");
    reveal_strlit("grant.set");
    reveal_strlit("grant.delete");
    reveal_strlit("session.refuse");
    reveal_strlit("session.grant");
    reveal_strlit("release.upload");
    reveal_strlit("release.offer");
    reveal_strlit("release.withdraw");
    reveal_strlit("release.delete");
    assert("token.create"@ =~= "token."@ + "create"@);
    assert("token.delete"@ =~= "token."@ + "delete"@);
    assert("user.create"@ =~= "user."@ + "create"@);
    assert("user.update"@ =~= "user."@ + "update"@);
    assert("user.delete"@ =~= "user."@ + "delete"@);
    assert("device.update"@ =~= "device."@ + "update"@);
    assert("device.delete"@ =~= "device."@ + "delete"@);
    assert("device_group.create"@ =~= "device_group."@ + "create"@);
    assert("device_group.rename"@ =~= "device_group."@ + "rename"@);
    assert("device_group.delete"@ =~= "device_group."@ + "delete"@);
    assert("enroll_token.create"@ =~= "enroll_token."@ + "create"@);
    assert("enroll_token.delete"@ =~= "enroll_token."@ + "delete"@);
    assert("user_group.create"@ =~= "user_group."@ + "create"@);
    assert("user_group.rename"@ =~= "user_group."@ + "rename"@);
    assert("user_group.delete"@ =~= "user_group."@ + "delete"@);
    assert("user_group.add"@ =~= "user_group."@ + "add"@);
    assert("user_group.remove"@ =~= "user_group."@ + "remove"@);
    assert("grant.set"@ =~= "grant."@ + "set"@);
    assert("grant.delete"@ =~= "grant."@ + "delete"@);
    assert("session.refuse"@ =~= "session."@ + "refuse"@);
    assert("session.grant"@ =~= "session."@ + "grant"@);
    assert("release.upload"@ =~= "release."@ + "upload"@);
    assert("release.offer"@ =~= "release."@ + "offer"@);
    assert("release.withdraw"@ =~= "release."@ + "withdraw"@);
    assert("release.delete"@ =~= "release."@ + "delete"@);
}

/// In the log a thing goes by its name, and by its number once that is gone;
/// what is switched on is `true`, and what is not is `false`.
pub proof fn lemma_things_go_by_their_names(name: Seq<char>, id: i64, yes: bool)
    ensures
        called(Some(name), id) == name,
        called(None, id) == seq!['#'] + signed(id as int),
        truth(yes) == "true"@ <==> yes,
        truth(yes) == "false"@ <==> !yes,
{
    reveal_strlit("#");
    reveal_strlit("true");
    reveal_strlit("false");
    assert("#"@ =~= seq!['#']);
    assert("true"@.len() == 4 && "false"@.len() == 5);
}

/// Whoever is acted on is named in the log as the target: an account, device or
/// group by its name, a grant by its two groups, and one's own doings by oneself.
pub proof fn lemma_the_log_names_the_target(act: Act, who: Seq<char>)
    ensures
        act is Login || act is Setup || act is PasswordChange || act is TotpEnable
            || act is TotpDisable || act is TokenCreate || act is TokenDelete ==> act.target(who)
            == who,
        act matches Act::UserCreate { name, admin } ==> act.target(who) == name@ && (
        act.detail() is Some <==> admin),
        act matches Act::UserUpdate { name, admin, disabled } ==> act.target(who) == name@
            && act.detail() == Some(
            "admin: "@ + (if admin {
                "true"@
            } else {
                "false"@
            }) + ", disabled: "@ + (if disabled {
                "true"@
            } else {
                "false"@
            }),
        ),
        act matches Act::DeviceGroupRename { before, name } ==> act.target(who) == before@
            && act.detail() == Some(name@),
        act matches Act::UserGroupRename { before, name } ==> act.target(who) == before@
            && act.detail() == Some(name@),
        act matches Act::UserGroupAdd { user_group, user, was } ==> act.target(who) == user_group@
            && (was matches Some(name) ==> act.detail() == Some(name@)),
        act matches Act::UserGroupRemove { user_group, user, was } ==> act.target(who)
            == user_group@ && (was matches Some(name) ==> act.detail() == Some(name@)),
        act matches Act::GrantSet { user_group, device_group, role } ==> act.target(who)
            == user_group@ + " → "@ + device_group@ && act.detail() == Some(role@),
        act matches Act::GrantDelete { user_group, device_group, role } ==> act.target(who)
            == user_group@ + " → "@ + device_group@ && act.detail() == Some(role@),
        act matches Act::SessionGrant { device, level } ==> act.target(who) == device.written()
            && act.detail() == Some(level.name() + ", web"@),
        act matches Act::ReleaseUpload { release, sha256 } ==> act.target(who) == release@
            && act.detail() == Some(sha256@),
        act matches Act::DeviceDelete { name, device_id } ==> act.target(who) == name@
            && act.detail() == Some(device_id@),
{
}

}
