//! People: accounts, how they sign in, and the tokens that stand for them.
//!
//! * Passwords are hashed with Argon2id.
//! * Signing in gives a session token for the console's cookie; the REST API
//!   takes API tokens a user makes for scripts. Both are random 256-bit
//!   values, handed out once and kept only as their SHA-256.
//! * TOTP is optional per user; once on, signing in needs a code, and each
//!   code works once.
//! * Wrong passwords are limited per address and per account name, so
//!   guessing gets a handful of tries every quarter of an hour.
//! * The first administrator comes from a one-time setup token the server
//!   prints on its first start, when there are no users.
//!
//! Names are the same in any case of their ASCII letters. Times are seconds
//! since the Unix epoch, but for the clock that attempts are counted on.

use super::attempts::{kept, recent, Attempts, Key, Who};
use super::rows::{
    at, find, fresh_id, keep, lemma_at, lemma_at_own, lemma_left, lemma_listed_chain,
    lemma_listed_total, listed_first, lists_first, next_id, numbered, Row,
};
use super::totp;
use crate::bytes::{copy_bytes, same_bytes};
use crate::crypto::{
    argon2_hash, argon2_verify, hashable, password_matches, random_bytes, sha256_digest, sha256_of,
};
use crate::hex::{hex_of, push_hex};
use crate::net::Ip;
use crate::sort::{in_order, places, Ranked};
use crate::text::{
    chars_of, control, eq_ignore_case, is_control, lemma_trimmed_ends, lemma_trimmed_fixed,
    lowercase, lowercase_of, same_but_case, starts, starts_with, trim, trimmed,
};
use vstd::prelude::*;
use vstd::utf8::encode_utf8;

verus! {

pub const MIN_PASSWORD: usize = 10;

pub const MAX_NAME: usize = 64;

/// How long a console sign-in lasts.
pub const LOGIN_LIFETIME: i64 = 43_200;

pub const SETUP_LIFETIME: i64 = 86_400;

/// Wrong passwords allowed per address, and per account name, per window.
pub const ATTEMPTS: usize = 10;

/// A quarter of an hour, in microseconds.
pub const ATTEMPT_WINDOW: u64 = 900_000_000;

#[derive(Debug, Clone, PartialEq, Eq)]
pub struct User {
    pub id: i64,
    pub name: String,
    pub admin: bool,
    pub totp: bool,
    pub disabled: bool,
}

#[derive(Debug, Clone, PartialEq, Eq)]
pub struct ApiToken {
    pub id: i64,
    pub name: String,
    pub created_at: i64,
    pub last_used_at: Option<i64>,
    pub expires_at: Option<i64>,
}

/// Why something was refused, in words fit for the person who asked.
#[derive(Debug, Clone, PartialEq, Eq)]
pub enum Refused {
    WrongCredentials,
    TotpNeeded,
    WrongCode,
    TooManyAttempts,
    Invalid(String),
    Forbidden,
    NotFound,
}

impl Refused {
    pub open spec fn says(&self) -> Seq<char> {
        match self {
            Refused::WrongCredentials => "wrong name or password"@,
            Refused::TotpNeeded => "a code from the authenticator app is needed"@,
            Refused::WrongCode => "wrong or already used code"@,
            Refused::TooManyAttempts => "too many attempts; try again in a quarter of an hour"@,
            Refused::Invalid(why) => why@,
            Refused::Forbidden => "not allowed"@,
            Refused::NotFound => "not found"@,
        }
    }

    pub fn message(&self) -> (text: String)
        ensures
            text@ == self.says(),
    {
        match self {
            Refused::WrongCredentials => "wrong name or password".to_owned(),
            Refused::TotpNeeded => "a code from the authenticator app is needed".to_owned(),
            Refused::WrongCode => "wrong or already used code".to_owned(),
            Refused::TooManyAttempts =>
                "too many attempts; try again in a quarter of an hour".to_owned(),
            Refused::Invalid(why) => why.as_str().to_owned(),
            Refused::Forbidden => "not allowed".to_owned(),
            Refused::NotFound => "not found".to_owned(),
        }
    }

    /// The server's own failure, which is nobody else's business.
    pub open spec fn is_internal(&self) -> bool {
        self matches Refused::Invalid(why) && why@ == "the server failed; see its log"@
    }
}

/// What is said when the server itself failed.
pub fn internal() -> (refused: Refused)
    ensures
        refused.is_internal(),
{
    Refused::Invalid("the server failed; see its log".to_owned())
}

// --- Names, passwords, tokens ----------------------------------------------------------------

/// 1 to 64 characters, none of them a control character, without surrounding
/// spaces.
pub open spec fn valid_name(name: Seq<char>) -> bool {
    &&& 1 <= name.len() <= MAX_NAME
    &&& forall|i: int| 0 <= i < name.len() ==> !is_control(#[trigger] name[i])
    &&& trimmed(name) == name
}

pub open spec fn name_rule() -> Seq<char> {
    "a name is 1 to 64 characters, without surrounding spaces"@
}

pub fn check_name(name: &str) -> (checked: Result<(), Refused>)
    ensures
        match checked {
            Ok(()) => valid_name(name@),
            Err(Refused::Invalid(why)) => !valid_name(name@) && why@ == name_rule(),
            Err(_) => false,
        },
{
    let chars = chars_of(name);
    let mut clean = chars.len() > 0 && chars.len() <= MAX_NAME;
    let mut i: usize = 0;
    while i < chars.len()
        invariant
            i <= chars@.len(),
            clean == (1 <= chars@.len() <= MAX_NAME && forall|j: int|
                0 <= j < i ==> !is_control(#[trigger] chars@[j])),
        decreases chars.len() - i,
    {
        if control(chars[i]) {
            clean = false;
        }
        i = i + 1;
    }
    let rest = trim(&chars);
    if clean && crate::text::same(rest, &chars) {
        Ok(())
    } else {
        Err(
            Refused::Invalid("a name is 1 to 64 characters, without surrounding spaces".to_owned()),
        )
    }
}

pub open spec fn password_rule() -> Seq<char> {
    "a password is at least 10 characters"@
}

pub fn check_password(password: &str) -> (checked: Result<(), Refused>)
    ensures
        match checked {
            Ok(()) => password@.len() >= MIN_PASSWORD,
            Err(Refused::Invalid(why)) => password@.len() < MIN_PASSWORD && why@
                == password_rule(),
            Err(_) => false,
        },
{
    if password.unicode_len() < MIN_PASSWORD {
        Err(Refused::Invalid("a password is at least 10 characters".to_owned()))
    } else {
        Ok(())
    }
}

/// A token: what it is for, and 32 bytes in hexadecimal.
pub fn token_of(prefix: &str, bytes: &[u8]) -> (token: String)
    ensures
        token@ == prefix@ + hex_of(bytes@),
{
    let mut token = prefix.to_owned();
    push_hex(&mut token, bytes);
    token
}

/// A fresh token: 256 random bits in hexadecimal, after `prefix`.
pub fn random_token(prefix: &str) -> (token: Result<String, Refused>)
    ensures
        match token {
            Ok(token) => token@.len() == prefix@.len() + 64 && starts(token@, prefix@),
            Err(refused) => refused.is_internal(),
        },
{
    match random_bytes(32) {
        Some(bytes) => {
            let token = token_of(prefix, &bytes);
            assert(token@.take(prefix@.len() as int) =~= prefix@);
            Ok(token)
        },
        None => Err(internal()),
    }
}

/// What is kept of a token.
pub open spec fn hash_of(token: Seq<char>) -> Seq<u8> {
    sha256_of(encode_utf8(token))
}

/// A token short enough to hash.
pub open spec fn fits(token: Seq<char>) -> bool {
    hashable(encode_utf8(token).len())
}

pub fn hash(token: &str) -> (hash: Vec<u8>)
    requires
        fits(token@),
    ensures
        hash@ == hash_of(token@),
{
    let digest = sha256_digest(token.as_bytes());
    copy_bytes(&digest)
}

/// What a console session token starts with, which makes a leaked one
/// recognisable for what it is.
pub open spec fn login_prefix() -> Seq<char> {
    "nhs_"@
}

/// And an API token.
pub open spec fn api_prefix() -> Seq<char> {
    "nht_"@
}

fn has_prefix(token: &str, prefix: &str) -> (yes: bool)
    ensures
        yes == starts(token@, prefix@),
{
    starts_with(&chars_of(token), &chars_of(prefix))
}

// --- What is kept -----------------------------------------------------------------------------

/// An account.
#[derive(Debug)]
pub struct Record {
    pub id: i64,
    pub name: String,
    pub password_hash: String,
    pub admin: bool,
    pub disabled: bool,
    pub totp_secret: Option<Vec<u8>>,
    /// A secret that is not in force yet.
    pub totp_pending: Option<Vec<u8>>,
    /// The step of the last code that was used.
    pub totp_last_step: Option<i64>,
    pub created_at: i64,
}

impl Row for Record {
    open spec fn key(&self) -> i64 {
        self.id
    }

    fn id(&self) -> (id: i64) {
        self.id
    }
}

impl Ranked for Record {
    open spec fn ranks(&self, other: &Record) -> bool {
        listed_first(self.name@, self.id, other.name@, other.id)
    }

    fn at_most(&self, other: &Record) -> (yes: bool) {
        lists_first(&self.name, self.id, &other.name, other.id)
    }

    proof fn lemma_total(a: &Record, b: &Record) {
        lemma_listed_total(a.name@, a.id, b.name@, b.id);
    }

    proof fn lemma_chain(a: &Record, b: &Record, c: &Record) {
        lemma_listed_chain(a.name@, a.id, b.name@, b.id, c.name@, c.id);
    }
}

/// Someone signed in to the console.
#[derive(Debug)]
pub struct Login {
    pub token_hash: Vec<u8>,
    pub user: i64,
    pub created_at: i64,
    pub expires_at: i64,
}

/// An API token, as it is kept.
#[derive(Debug)]
pub struct TokenRecord {
    pub id: i64,
    pub user: i64,
    pub name: String,
    pub token_hash: Vec<u8>,
    pub created_at: i64,
    pub last_used_at: Option<i64>,
    pub expires_at: Option<i64>,
}

impl Row for TokenRecord {
    open spec fn key(&self) -> i64 {
        self.id
    }

    fn id(&self) -> (id: i64) {
        self.id
    }
}

/// A token that makes the first administrator.
#[derive(Debug)]
pub struct SetupToken {
    pub token_hash: Vec<u8>,
    pub expires_at: i64,
}

impl User {
    /// This is what is shown of an account.
    pub open spec fn shows(&self, record: &Record) -> bool {
        &&& self.id == record.id
        &&& self.name@ == record.name@
        &&& self.admin == record.admin
        &&& self.totp == record.totp_secret is Some
        &&& self.disabled == record.disabled
    }
}

pub fn user_of(record: &Record) -> (user: User)
    ensures
        user.shows(record),
{
    User {
        id: record.id,
        name: record.name.as_str().to_owned(),
        admin: record.admin,
        totp: record.totp_secret.is_some(),
        disabled: record.disabled,
    }
}

impl ApiToken {
    /// This is what is shown of an API token.
    pub open spec fn shows(&self, record: &TokenRecord) -> bool {
        &&& self.id == record.id
        &&& self.name@ == record.name@
        &&& self.created_at == record.created_at
        &&& self.last_used_at == record.last_used_at
        &&& self.expires_at == record.expires_at
    }
}

fn api_token_of(record: &TokenRecord) -> (token: ApiToken)
    ensures
        token.shows(record),
{
    ApiToken {
        id: record.id,
        name: record.name.as_str().to_owned(),
        created_at: record.created_at,
        last_used_at: record.last_used_at,
        expires_at: record.expires_at,
    }
}

/// Where the account called `name` is; -1 if there is none.
pub open spec fn at_name(users: Seq<Record>, name: Seq<char>) -> int
    decreases users.len(),
{
    if users.len() == 0 {
        -1
    } else if same_but_case(users.last().name@, name) {
        users.len() - 1
    } else {
        at_name(users.drop_last(), name)
    }
}

proof fn lemma_at_name(users: Seq<Record>, name: Seq<char>)
    ensures
        -1 <= at_name(users, name) < users.len(),
        at_name(users, name) >= 0 ==> same_but_case(users[at_name(users, name)].name@, name),
        at_name(users, name) < 0 ==> forall|i: int|
            0 <= i < users.len() ==> !same_but_case((#[trigger] users[i]).name@, name),
    decreases users.len(),
{
    if users.len() > 0 && !same_but_case(users.last().name@, name) {
        lemma_at_name(users.drop_last(), name);
        assert forall|i: int| at_name(users, name) < 0 && 0 <= i < users.len() implies !same_but_case(
            (#[trigger] users[i]).name@,
            name,
        ) by {
            if i < users.len() - 1 {
                assert(!same_but_case(users.drop_last()[i].name@, name));
            }
        }
    }
}

fn find_name(users: &[Record], name: &str) -> (found: Option<usize>)
    ensures
        match found {
            Some(i) => at_name(users@, name@) == i && i < users@.len(),
            None => at_name(users@, name@) < 0,
        },
{
    let wanted = chars_of(name);
    let mut i: usize = users.len();
    assert(users@.take(i as int) =~= users@);
    while i > 0
        invariant
            i <= users@.len(),
            wanted@ == name@,
            at_name(users@, name@) == at_name(users@.take(i as int), name@),
        decreases i,
    {
        assert(users@.take(i as int).drop_last() =~= users@.take(i - 1));
        i = i - 1;
        if eq_ignore_case(&chars_of(users[i].name.as_str()), &wanted) {
            return Some(i);
        }
    }
    None
}

/// Accounts, those signed in, and their tokens.
#[derive(Debug)]
pub struct Accounts {
    pub users: Vec<Record>,
    pub logins: Vec<Login>,
    pub tokens: Vec<TokenRecord>,
    pub setup_tokens: Vec<SetupToken>,
    /// Wrong passwords, counted.
    pub attempts: Attempts,
    /// A hash no password matches, checked against for unknown names.
    pub dummy: String,
}

impl Accounts {
    /// The wrong passwords counted for someone.
    pub open spec fn wrong(&self, key: Key) -> Seq<u64> {
        self.attempts.recorded(key)
    }

    /// Tries are limited as they should be.
    pub open spec fn limited(&self) -> bool {
        self.attempts.limit() == ATTEMPTS && self.attempts.window() == ATTEMPT_WINDOW
    }

    /// And secrets are of a size that can be used.
    pub open spec fn wf(&self) -> bool {
        &&& self.limited()
        &&& forall|i: int|
            #![trigger self.users@[i]]
            0 <= i < self.users@.len() ==> {
                &&& self.users@[i].totp_secret matches Some(secret) ==> hashable(secret@.len())
                &&& self.users@[i].totp_pending matches Some(secret) ==> hashable(secret@.len())
            }
    }

    /// No two accounts have the same number or name.
    pub open spec fn distinct(&self) -> bool {
        &&& numbered(self.users@)
        &&& forall|i: int, j: int|
            0 <= i < j < self.users@.len() ==> !same_but_case(
                (#[trigger] self.users@[i]).name@,
                (#[trigger] self.users@[j]).name@,
            )
    }

    /// Accounts as they were kept.
    pub fn load(
        users: Vec<Record>,
        logins: Vec<Login>,
        tokens: Vec<TokenRecord>,
        setup_tokens: Vec<SetupToken>,
    ) -> (accounts: Accounts)
        ensures
            accounts.users@ == users@,
            accounts.logins@ == logins@,
            accounts.tokens@ == tokens@,
            accounts.setup_tokens@ == setup_tokens@,
            accounts.limited(),
            forall|key: Key| #[trigger] accounts.wrong(key).len() == 0,
    {
        let dummy = match argon2_hash("no account has this password, it is only for timing") {
            Ok(hash) => hash,
            Err(_) => String::new(),
        };
        let attempts = Attempts::new(ATTEMPTS, ATTEMPT_WINDOW);
        Accounts { users, logins, tokens, setup_tokens, attempts, dummy }
    }

    /// No accounts at all.
    pub fn new() -> (accounts: Accounts)
        ensures
            accounts.wf(),
            accounts.distinct(),
            accounts.users@.len() == 0,
            accounts.logins@.len() == 0,
            accounts.tokens@.len() == 0,
            accounts.setup_tokens@.len() == 0,
            forall|key: Key| #[trigger] accounts.wrong(key).len() == 0,
    {
        Accounts::load(Vec::new(), Vec::new(), Vec::new(), Vec::new())
    }

    pub fn has_users(&self) -> (yes: bool)
        ensures
            yes == (self.users@.len() > 0),
    {
        self.users.len() > 0
    }

    // --- The first administrator ------------------------------------------------------------

    /// Keep a setup token, in place of any other, for a day.
    pub fn keep_setup_token(&mut self, token: &str, now: i64)
        requires
            old(self).wf(),
            fits(token@),
            now + SETUP_LIFETIME <= i64::MAX,
        ensures
            final(self).wf(),
            final(self).users == old(self).users,
            final(self).logins == old(self).logins,
            final(self).tokens == old(self).tokens,
            final(self).attempts == old(self).attempts,
            opens_setup(final(self).setup_tokens@, token@, now),
    {
        let mut setup_tokens: Vec<SetupToken> = Vec::new();
        setup_tokens.push(SetupToken { token_hash: hash(token), expires_at: now + SETUP_LIFETIME });
        self.setup_tokens = setup_tokens;
    }

    /// A one-time token that creates the first administrator, good for a day.
    /// Earlier ones stop working.
    pub fn new_setup_token(&mut self, now: i64) -> (token: Result<String, Refused>)
        requires
            old(self).wf(),
            now + SETUP_LIFETIME <= i64::MAX,
        ensures
            final(self).wf(),
            final(self).users == old(self).users,
            final(self).logins == old(self).logins,
            final(self).tokens == old(self).tokens,
            final(self).attempts == old(self).attempts,
            match token {
                Ok(token) => token@.len() == 64 && opens_setup(
                    final(self).setup_tokens@,
                    token@,
                    now,
                ),
                Err(refused) => refused.is_internal() && final(self).setup_tokens == old(
                    self).setup_tokens,
            },
    {
        let token = random_token("")?;
        proof {
            reveal_strlit("");
            lemma_short_fits(token@);
        }
        self.keep_setup_token(&token, now);
        Ok(token)
    }

    /// A setup token with this hash is good now.
    pub open spec fn sets_up(&self, hash: Seq<u8>, now: i64) -> bool {
        exists|i: int|
            0 <= i < self.setup_tokens@.len() && (#[trigger] self.setup_tokens@[i]).token_hash@
                == hash && self.setup_tokens@[i].expires_at > now
    }

    /// Whether a setup token may make an administrator of this name and
    /// password.
    pub fn may_set_up(&self, token: &str, name: &str, password: &str, now: i64) -> (checked: Result<
        (),
        Refused,
    >)
        requires
            fits(token@),
        ensures
            match checked {
                Ok(()) => {
                    &&& valid_name(name@)
                    &&& password@.len() >= MIN_PASSWORD
                    &&& self.sets_up(hash_of(token@), now)
                    &&& self.users@.len() == 0
                },
                Err(Refused::Invalid(why)) => if !valid_name(name@) {
                    why@ == name_rule()
                } else {
                    password@.len() < MIN_PASSWORD && why@ == password_rule()
                },
                Err(Refused::Forbidden) => {
                    &&& valid_name(name@)
                    &&& password@.len() >= MIN_PASSWORD
                    &&& !self.sets_up(hash_of(token@), now) || self.users@.len() > 0
                },
                Err(_) => false,
            },
    {
        check_name(name)?;
        check_password(password)?;
        let wanted = hash(token);
        let mut valid = false;
        let mut i: usize = 0;
        while i < self.setup_tokens.len()
            invariant
                i <= self.setup_tokens@.len(),
                wanted@ == hash_of(token@),
                valid == (exists|j: int|
                    0 <= j < i && (#[trigger] self.setup_tokens@[j]).token_hash@ == hash_of(token@)
                        && self.setup_tokens@[j].expires_at > now),
            decreases self.setup_tokens.len() - i,
        {
            if same_bytes(&self.setup_tokens[i].token_hash, &wanted)
                && self.setup_tokens[i].expires_at > now {
                valid = true;
            }
            i = i + 1;
        }
        if !valid || self.users.len() > 0 {
            return Err(Refused::Forbidden);
        }
        Ok(())
    }

    /// Add an account, if its password could be hashed and there is none by
    /// that name.
    pub fn add_user(
        &mut self,
        name: &str,
        hashed: Result<String, String>,
        admin: bool,
        now: i64,
    ) -> (added: Result<User, Refused>)
        requires
            old(self).wf(),
        ensures
            final(self).wf(),
            final(self).logins == old(self).logins,
            final(self).tokens == old(self).tokens,
            final(self).setup_tokens == old(self).setup_tokens,
            final(self).attempts == old(self).attempts,
            old(self).distinct() ==> final(self).distinct(),
            match added {
                Ok(user) => {
                    &&& hashed is Ok
                    &&& at_name(old(self).users@, name@) < 0
                    &&& next_id(old(self).users@) == Some(user.id)
                    &&& final(self).users@.len() == old(self).users@.len() + 1
                    &&& final(self).users@.drop_last() == old(self).users@
                    &&& user.shows(&final(self).users@.last())
                    &&& final(self).users@.last().name@ == name@
                    &&& final(self).users@.last().password_hash@ == hashed->Ok_0@
                    &&& final(self).users@.last().admin == admin
                    &&& !final(self).users@.last().disabled
                    &&& final(self).users@.last().totp_secret is None
                    &&& final(self).users@.last().totp_pending is None
                    &&& final(self).users@.last().totp_last_step is None
                    &&& final(self).users@.last().created_at == now
                },
                Err(refused) => {
                    &&& final(self).users == old(self).users
                    &&& if hashed is Ok && at_name(old(self).users@, name@) >= 0 {
                        refused matches Refused::Invalid(why) && why@
                            == "there is already a user called "@ + name@
                    } else {
                        &&& refused.is_internal()
                        &&& hashed is Err || next_id(old(self).users@) is None
                    }
                },
            },
    {
        let password_hash = match hashed {
            Ok(hash) => hash,
            Err(_) => {
                return Err(internal());
            },
        };
        if find_name(&self.users, name).is_some() {
            let mut why = "there is already a user called ".to_owned();
            why.append(name);
            return Err(Refused::Invalid(why));
        }
        let id = match fresh_id(&self.users) {
            Some(id) => id,
            None => {
                return Err(internal());
            },
        };
        let record = Record {
            id,
            name: name.to_owned(),
            password_hash,
            admin,
            disabled: false,
            totp_secret: None,
            totp_pending: None,
            totp_last_step: None,
            created_at: now,
        };
        let user = user_of(&record);
        let ghost before = self.users@;
        self.users.push(record);
        proof {
            lemma_at_name(before, name@);
            assert(self.users@.drop_last() =~= before);
            if old(self).distinct() {
                assert forall|i: int, j: int| 0 <= i < j < self.users@.len() implies !same_but_case(
                    (#[trigger] self.users@[i]).name@,
                    (#[trigger] self.users@[j]).name@,
                ) by {
                    assert(self.users@[i] == before[i]);
                    if j < before.len() {
                        assert(self.users@[j] == before[j]);
                    }
                }
            }
        }
        Ok(user)
    }

    /// What `setup` does.
    pub open spec fn setup_does(
        before: &Accounts,
        after: &Accounts,
        token: &str,
        name: &str,
        password: &str,
        now: i64,
        made: Result<User, Refused>,
    ) -> bool {
        &&& after.wf()
        &&& after.logins == before.logins
        &&& after.tokens == before.tokens
        &&& after.attempts == before.attempts
        &&& before.distinct() ==> after.distinct()
        &&& match made {
            Ok(user) => {
                &&& valid_name(name@)
                &&& password@.len() >= MIN_PASSWORD
                &&& before.sets_up(hash_of(token@), now)
                &&& before.users@.len() == 0
                &&& after.users@.len() == 1
                &&& user.shows(&after.users@[0])
                &&& user.id == 1 && user.name@ == name@ && user.admin && !user.disabled
                &&& !user.totp
                &&& password_matches(password@, after.users@[0].password_hash@)
                &&& after.setup_tokens@.len() == 0
            },
            Err(refused) => {
                &&& after.users == before.users
                &&& after.setup_tokens == before.setup_tokens
                &&& if !valid_name(name@) {
                    refused matches Refused::Invalid(why) && why@ == name_rule()
                } else if password@.len() < MIN_PASSWORD {
                    refused matches Refused::Invalid(why) && why@ == password_rule()
                } else if !before.sets_up(hash_of(token@), now) || before.users@.len()
                    > 0 {
                    refused is Forbidden
                } else {
                    refused.is_internal()
                }
            },
        }
    }

    /// Create the first administrator with a setup token.
    pub fn setup(&mut self, token: &str, name: &str, password: &str, now: i64) -> (made: Result<
        User,
        Refused,
    >)
        requires
            old(self).wf(),
            fits(token@),
        ensures
            Accounts::setup_does(old(self), final(self), token, name, password, now, made),
    {
        self.may_set_up(token, name, password, now)?;
        proof {
            lemma_at_name(self.users@, name@);
        }
        let user = self.add_user(name, argon2_hash(password), true, now)?;
        self.setup_tokens = Vec::new();
        Ok(user)
    }

    /// What `create_user` does.
    pub open spec fn create_user_does(
        before: &Accounts,
        after: &Accounts,
        name: &str,
        password: &str,
        admin: bool,
        now: i64,
        made: Result<User, Refused>,
    ) -> bool {
        &&& after.wf()
        &&& after.logins == before.logins
        &&& after.tokens == before.tokens
        &&& after.setup_tokens == before.setup_tokens
        &&& after.attempts == before.attempts
        &&& before.distinct() ==> after.distinct()
        &&& match made {
            Ok(user) => {
                &&& valid_name(name@)
                &&& password@.len() >= MIN_PASSWORD
                &&& at_name(before.users@, name@) < 0
                &&& next_id(before.users@) == Some(user.id)
                &&& after.users@.len() == before.users@.len() + 1
                &&& after.users@.drop_last() == before.users@
                &&& user.shows(&after.users@.last())
                &&& user.name@ == name@ && user.admin == admin && !user.disabled && !user.totp
                &&& password_matches(password@, after.users@.last().password_hash@)
            },
            Err(refused) => {
                &&& after.users == before.users
                &&& if !valid_name(name@) {
                    refused matches Refused::Invalid(why) && why@ == name_rule()
                } else if password@.len() < MIN_PASSWORD {
                    refused matches Refused::Invalid(why) && why@ == password_rule()
                } else {
                    ||| refused.is_internal()
                    ||| {
                        &&& at_name(before.users@, name@) >= 0
                        &&& refused matches Refused::Invalid(why)
                        &&& why@ == "there is already a user called "@ + name@
                    }
                }
            },
        }
    }

    pub fn create_user(&mut self, name: &str, password: &str, admin: bool, now: i64) -> (made:
        Result<User, Refused>)
        requires
            old(self).wf(),
        ensures
            Accounts::create_user_does(old(self), final(self), name, password, admin, now, made),
    {
        check_name(name)?;
        check_password(password)?;
        self.add_user(name, argon2_hash(password), admin, now)
    }

    pub fn user(&self, id: i64) -> (user: Option<User>)
        ensures
            match user {
                Some(user) => at(self.users@, id) >= 0 && user.shows(
                    &self.users@[at(self.users@, id)],
                ),
                None => at(self.users@, id) < 0,
            },
    {
        match find(&self.users, id) {
            Some(i) => Some(user_of(&self.users[i])),
            None => None,
        }
    }

    // --- Signing in -------------------------------------------------------------------------------

    /// The password is the one of the account called `name`.
    pub open spec fn right_password(&self, name: Seq<char>, password: Seq<char>) -> bool {
        let i = at_name(self.users@, name);
        i >= 0 && password_matches(password, self.users@[i].password_hash@)
    }

    /// What the second step of signing in to an account comes to.
    pub open spec fn second_step(record: Record, code: Option<Seq<char>>, now: i64) -> Second {
        match record.totp_secret {
            None => Second::NotNeeded,
            Some(secret) => match code {
                None => Second::Missing,
                Some(code) => Second::Given {
                    step: match totp::step_of(secret@, code, now as u64) {
                        Some(step) => Some(step as i64),
                        None => None,
                    },
                    last: record.totp_last_step,
                },
            },
        }
    }

    /// Who is trying is out of tries.
    pub open spec fn out_of_tries(&self, name: Seq<char>, from: Ip, clock: u64) -> bool {
        ||| kept(self.wrong(Key::Address(from)), ATTEMPT_WINDOW, clock).len() >= ATTEMPTS
        ||| kept(self.wrong(Key::Name(lowercase_of(name))), ATTEMPT_WINDOW, clock).len() >= ATTEMPTS
    }

    /// What signing in comes to, for one who has tries left.
    pub open spec fn verdict_on(
        &self,
        name: Seq<char>,
        password: Seq<char>,
        code: Option<Seq<char>>,
        now: i64,
    ) -> Verdict {
        let i = at_name(self.users@, name);
        if i < 0 {
            Verdict::WrongPassword
        } else {
            verdict(
                self.right_password(name, password),
                self.users@[i].disabled,
                Self::second_step(self.users@[i], code, now),
            )
        }
    }

    /// What is counted for someone after a try: whoever has gone quiet is
    /// forgotten, and a wrong one is counted for the address and the name.
    pub open spec fn wrong_after(
        &self,
        name: Seq<char>,
        from: Ip,
        clock: u64,
        counted: bool,
        key: Key,
    ) -> Seq<u64> {
        let before = kept(self.wrong(key), ATTEMPT_WINDOW, clock);
        if counted && (key == Key::Address(from) || key == Key::Name(lowercase_of(name))) {
            recent(before, ATTEMPT_WINDOW, clock).push(clock)
        } else {
            before
        }
    }

    /// Check who is signing in; the number of the account on success. A code
    /// that was accepted is noted as used.
    pub fn check_in(
        &mut self,
        name: &str,
        password: &str,
        code: Option<&str>,
        from: Ip,
        now: i64,
        clock: u64,
    ) -> (admitted: Result<i64, Refused>)
        requires
            old(self).wf(),
            now >= 0,
        ensures
            final(self).wf(),
            old(self).distinct() ==> final(self).distinct(),
            final(self).logins == old(self).logins,
            final(self).tokens == old(self).tokens,
            final(self).setup_tokens == old(self).setup_tokens,
            ({
                let i = at_name(old(self).users@, name@);
                let code = match code {
                    Some(code) => Some(code@),
                    None => None,
                };
                let verdict = old(self).verdict_on(name@, password@, code, now);
                if old(self).out_of_tries(name@, from, clock) {
                    &&& admitted matches Err(Refused::TooManyAttempts)
                    &&& final(self).users@ == old(self).users@
                    &&& forall|key: Key| #[trigger]
                        final(self).wrong(key) == old(self).wrong_after(
                            name@,
                            from,
                            clock,
                            false,
                            key,
                        )
                } else {
                    &&& forall|key: Key| #[trigger]
                        final(self).wrong(key) == old(self).wrong_after(
                            name@,
                            from,
                            clock,
                            verdict == Verdict::WrongPassword || verdict == Verdict::WrongCode,
                            key,
                        )
                    &&& match verdict {
                        Verdict::Admit { step } => {
                            &&& admitted == Ok::<i64, Refused>(old(self).users@[i].id)
                            &&& final(self).users@ == (match step {
                                Some(step) => old(self).users@.update(
                                    i,
                                    Record {
                                        totp_last_step: Some(step),
                                        ..old(self).users@[i]
                                    },
                                ),
                                None => old(self).users@,
                            })
                        },
                        Verdict::WrongPassword | Verdict::Disabled => {
                            &&& admitted matches Err(Refused::WrongCredentials)
                            &&& final(self).users@ == old(self).users@
                        },
                        Verdict::CodeNeeded => {
                            &&& admitted matches Err(Refused::TotpNeeded)
                            &&& final(self).users@ == old(self).users@
                        },
                        Verdict::WrongCode => {
                            &&& admitted matches Err(Refused::WrongCode)
                            &&& final(self).users@ == old(self).users@
                        },
                    }
                }
            }),
    {
        let address = Who::Address(from);
        let called = Who::Name(lowercase(name));
        let first = self.attempts.may_try(&address, clock);
        proof {
            assert forall|key: Key| kept(
                #[trigger] self.attempts.recorded(key),
                ATTEMPT_WINDOW,
                clock,
            ) == self.attempts.recorded(key) by {}
        }
        if !first {
            return Err(Refused::TooManyAttempts);
        }
        if !self.attempts.may_try(&called, clock) {
            return Err(Refused::TooManyAttempts);
        }
        let ghost swept = self.attempts;
        assert(forall|key: Key| #[trigger]
            swept.recorded(key) == old(self).wrong_after(name@, from, clock, false, key));
        proof {
            lemma_at_name(self.users@, name@);
        }
        let judged = match find_name(&self.users, name) {
            None => {
                // Hash even for an unknown name, so the time taken does not
                // say which names exist.
                let _ = argon2_verify(password, &self.dummy);
                None
            },
            Some(i) => {
                let record = &self.users[i];
                let right = argon2_verify(password, &record.password_hash);
                let second = match &record.totp_secret {
                    None => Second::NotNeeded,
                    Some(secret) => match code {
                        None => Second::Missing,
                        Some(code) => {
                            proof {
                                totp::lemma_one_step_either_side(secret@, code@, now as u64);
                            }
                            let step: Option<i64> = match totp::verify(secret, code, now as u64) {
                                Some(step) => Some(step as i64),
                                None => None,
                            };
                            Second::Given { step, last: record.totp_last_step }
                        },
                    },
                };
                Some((i, judge(right, record.disabled, second)))
            },
        };
        let (counted, admitted) = match judged {
            None => (true, Err(Refused::WrongCredentials)),
            Some((i, judgement)) => match judgement {
                Verdict::Admit { step } => {
                    let id: i64 = self.users[i].id;
                    if step.is_some() {
                        self.users[i].totp_last_step = step;
                        assert(self.users@ =~= old(self).users@.update(
                            i as int,
                            Record { totp_last_step: step, ..old(self).users@[i as int] },
                        ));
                    }
                    (false, Ok(id))
                },
                Verdict::WrongPassword => (true, Err(Refused::WrongCredentials)),
                Verdict::Disabled => (false, Err(Refused::WrongCredentials)),
                Verdict::CodeNeeded => (false, Err(Refused::TotpNeeded)),
                Verdict::WrongCode => (true, Err(Refused::WrongCode)),
            },
        };
        if counted {
            self.attempts.failed(&address, clock);
            self.attempts.failed(&called, clock);
        }
        proof {
            if old(self).distinct() {
                assert forall|i: int, j: int| 0 <= i < j < self.users@.len() implies !same_but_case(
                    (#[trigger] self.users@[i]).name@,
                    (#[trigger] self.users@[j]).name@,
                ) && self.users@[i].key() != self.users@[j].key() by {
                    assert(self.users@[i].name == old(self).users@[i].name);
                    assert(self.users@[j].name == old(self).users@[j].name);
                    assert(self.users@[i].id == old(self).users@[i].id);
                    assert(self.users@[j].id == old(self).users@[j].id);
                }
            }
        }
        admitted
    }
}

/// What the second step of signing in comes to.
#[derive(Debug, Clone, Copy, PartialEq, Eq, Structural)]
pub enum Second {
    /// TOTP is off.
    NotNeeded,
    /// No code was given.
    Missing,
    /// A code was given: the step it is for, if it is right, and the last
    /// step that was used.
    Given { step: Option<i64>, last: Option<i64> },
}

/// What an attempt to sign in comes to.
#[derive(Debug, Clone, Copy, PartialEq, Eq, Structural)]
pub enum Verdict {
    /// Sign in; a code for `step` is used up by it.
    Admit { step: Option<i64> },
    WrongPassword,
    Disabled,
    CodeNeeded,
    WrongCode,
}

pub open spec fn verdict(right: bool, disabled: bool, second: Second) -> Verdict {
    if !right {
        Verdict::WrongPassword
    } else if disabled {
        Verdict::Disabled
    } else {
        match second {
            Second::NotNeeded => Verdict::Admit { step: None },
            Second::Missing => Verdict::CodeNeeded,
            Second::Given { step: Some(step), last } => if last is None || step > last->Some_0 {
                Verdict::Admit { step: Some(step) }
            } else {
                Verdict::WrongCode
            },
            Second::Given { step: None, .. } => Verdict::WrongCode,
        }
    }
}

/// What an attempt to sign in comes to: the password first, then whether the
/// account is in use, then the code, which must be newer than the last one.
pub fn judge(right: bool, disabled: bool, second: Second) -> (judgement: Verdict)
    ensures
        judgement == verdict(right, disabled, second),
{
    if !right {
        return Verdict::WrongPassword;
    }
    if disabled {
        return Verdict::Disabled;
    }
    match second {
        Second::NotNeeded => Verdict::Admit { step: None },
        Second::Missing => Verdict::CodeNeeded,
        Second::Given { step, last } => match (step, last) {
            (Some(step), None) => Verdict::Admit { step: Some(step) },
            (Some(step), Some(last)) => if step > last {
                Verdict::Admit { step: Some(step) }
            } else {
                Verdict::WrongCode
            },
            (None, _) => Verdict::WrongCode,
        },
    }
}

/// Each code works once: a step at or before the one used last is refused.
pub proof fn lemma_codes_work_once(step: i64, last: i64)
    requires
        step <= last,
    ensures
        verdict(true, false, Second::Given { step: Some(step), last: Some(last) })
            == Verdict::WrongCode,
{
}

/// A code that someone signed in with lets nobody in a second time, while it
/// is the code of its step: whoever gives it again is refused.
pub proof fn lemma_a_used_code_is_refused(
    before: Accounts,
    after: Accounts,
    name: &str,
    password: &str,
    code: &str,
    from: Ip,
    now: i64,
    clock: u64,
    signed_in: (String, User),
    again: Accounts,
    other_password: &str,
    other_from: Ip,
    later: i64,
    later_clock: u64,
    answer: Result<(String, User), Refused>,
)
    requires
        before.wf(),
        0 <= now <= later,
        Accounts::sign_in_does(
            &before,
            &after,
            name,
            password,
            Some(code),
            from,
            now,
            clock,
            Ok(signed_in),
        ),
        before.users@[at_name(before.users@, name@)].totp_secret is Some,
        after.users@[at_name(before.users@, name@)].totp_last_step->Some_0 >= later / 30 - 1,
        Accounts::sign_in_does(
            &after,
            &again,
            name,
            other_password,
            Some(code),
            other_from,
            later,
            later_clock,
            answer,
        ),
    ensures
        answer is Err,
        again.logins@ == after.logins@,
{
    let i = at_name(before.users@, name@);
    let record = before.users@[i];
    let secret = record.totp_secret->Some_0;
    lemma_at_name(before.users@, name@);
    assert(before.verdict_on(name@, password@, Some(code@), now) is Admit);
    totp::lemma_one_step_either_side(secret@, code@, now as u64);
    let step = totp::step_of(secret@, code@, now as u64)->Some_0;
    let used = Record { totp_last_step: Some(step as i64), ..record };
    assert(after.users@ == before.users@.update(i, used));
    lemma_name_stays(before.users@, name@, used);
    totp::lemma_a_code_keeps_its_step(secret@, code@, now as u64, later as u64, step);
    assert(!(after.verdict_on(name@, other_password@, Some(code@), later) is Admit));
}

proof fn lemma_name_stays(users: Seq<Record>, name: Seq<char>, record: Record)
    requires
        at_name(users, name) >= 0,
        record.name == users[at_name(users, name)].name,
    ensures
        at_name(users.update(at_name(users, name), record), name) == at_name(users, name),
    decreases users.len(),
{
    lemma_at_name(users, name);
    let i = at_name(users, name);
    let after = users.update(i, record);
    if !same_but_case(users.last().name@, name) {
        lemma_at_name(users.drop_last(), name);
        assert(after.drop_last() =~= users.drop_last().update(i, record));
        lemma_name_stays(users.drop_last(), name, record);
    }
}

/// A wrong password is answered the same whether or not there is an account
/// by that name, and whatever its standing.
pub proof fn lemma_names_do_not_show(
    accounts: Accounts,
    name: Seq<char>,
    password: Seq<char>,
    code: Option<Seq<char>>,
    now: i64,
)
    requires
        !accounts.right_password(name, password),
    ensures
        accounts.verdict_on(name, password, code, now) == Verdict::WrongPassword,
{
}

/// The account that a session token with this hash stands for now; -1 if it
/// stands for none.
pub open spec fn session_at(
    logins: Seq<Login>,
    users: Seq<Record>,
    hash: Seq<u8>,
    now: i64,
) -> int
    decreases logins.len(),
{
    if logins.len() == 0 {
        -1
    } else {
        let login = logins.last();
        let i = at(users, login.user);
        if login.token_hash@ == hash && login.expires_at > now && i >= 0 && !users[i].disabled {
            i
        } else {
            session_at(logins.drop_last(), users, hash, now)
        }
    }
}

/// The logins with another token.
pub open spec fn other_logins(hash: Seq<u8>) -> spec_fn(Login) -> bool {
    |login: Login| login.token_hash@ != hash
}

/// The logins of other users.
pub open spec fn logins_of_others(user: i64) -> spec_fn(Login) -> bool {
    |login: Login| login.user != user
}

/// The API tokens of other users.
pub open spec fn tokens_of_others(user: i64) -> spec_fn(TokenRecord) -> bool {
    |token: TokenRecord| token.user != user
}

/// The API tokens but one user's token `id`.
pub open spec fn tokens_but(id: i64, user: i64) -> spec_fn(TokenRecord) -> bool {
    |token: TokenRecord| !(token.id == id && token.user == user)
}

/// The accounts but number `id`.
pub open spec fn users_but(id: i64) -> spec_fn(Record) -> bool {
    |record: Record| record.id != id
}

impl Accounts {
    /// What is kept but the accounts, and those signed in.
    pub open spec fn same_rest(&self, other: &Accounts) -> bool {
        &&& self.tokens == other.tokens
        &&& self.setup_tokens == other.setup_tokens
        &&& self.attempts == other.attempts
    }

    /// Open a session for an account, with a token made of drawn bytes.
    pub fn open_session(&mut self, id: i64, drawn: Option<Vec<u8>>, now: i64) -> (opened: Result<
        (String, User),
        Refused,
    >)
        requires
            old(self).wf(),
            drawn matches Some(bytes) ==> bytes@.len() == 32,
            now + LOGIN_LIFETIME <= i64::MAX,
        ensures
            final(self).wf(),
            final(self).users == old(self).users,
            final(self).same_rest(old(self)),
            match opened {
                Ok((token, user)) => {
                    let i = at(old(self).users@, id);
                    &&& drawn matches Some(bytes) && token@ == login_prefix() + hex_of(bytes@)
                    &&& i >= 0 && user.shows(&old(self).users@[i])
                    &&& final(self).logins@.len() == old(self).logins@.len() + 1
                    &&& final(self).logins@.drop_last() == old(self).logins@
                    &&& final(self).logins@.last().token_hash@ == hash_of(token@)
                    &&& final(self).logins@.last().user == id
                    &&& final(self).logins@.last().created_at == now
                    &&& final(self).logins@.last().expires_at == now + LOGIN_LIFETIME
                    &&& !old(self).users@[i].disabled ==> forall|t: int|
                        now <= t < now + LOGIN_LIFETIME ==> #[trigger] session_at(
                            final(self).logins@,
                            final(self).users@,
                            hash_of(token@),
                            t as i64,
                        ) == i
                },
                Err(refused) => {
                    &&& final(self).logins == old(self).logins
                    &&& if drawn is None {
                        refused.is_internal()
                    } else {
                        refused is NotFound && at(old(self).users@, id) < 0
                    }
                },
            },
    {
        let bytes = match drawn {
            Some(bytes) => bytes,
            None => {
                return Err(internal());
            },
        };
        let user = match self.user(id) {
            Some(user) => user,
            None => {
                return Err(Refused::NotFound);
            },
        };
        let token = token_of("nhs_", &bytes);
        proof {
            reveal_strlit("nhs_");
            lemma_short_fits(token@);
        }
        let login = Login {
            token_hash: hash(&token),
            user: id,
            created_at: now,
            expires_at: now + LOGIN_LIFETIME,
        };
        self.logins.push(login);
        assert(self.logins@.drop_last() =~= old(self).logins@);
        Ok((token, user))
    }

    /// What `sign_in` does.
    pub open spec fn sign_in_does(
        before: &Accounts,
        after: &Accounts,
        name: &str,
        password: &str,
        code: Option<&str>,
        from: Ip,
        now: i64,
        clock: u64,
        signed_in: Result<(String, User), Refused>,
    ) -> bool {
        &&& after.wf()
        &&& before.distinct() ==> after.distinct()
        &&& after.tokens == before.tokens
        &&& after.setup_tokens == before.setup_tokens
        &&& {
            let i = at_name(before.users@, name@);
            let code = match code {
                Some(code) => Some(code@),
                None => None,
            };
            let verdict = before.verdict_on(name@, password@, code, now);
            if before.out_of_tries(name@, from, clock) {
                &&& signed_in matches Err(Refused::TooManyAttempts)
                &&& after.users@ == before.users@
                &&& after.logins@ == before.logins@
                &&& forall|key: Key| #[trigger]
                    after.wrong(key) == before.wrong_after(
                        name@,
                        from,
                        clock,
                        false,
                        key,
                    )
            } else {
                &&& forall|key: Key| #[trigger]
                    after.wrong(key) == before.wrong_after(
                        name@,
                        from,
                        clock,
                        verdict == Verdict::WrongPassword || verdict == Verdict::WrongCode,
                        key,
                    )
                &&& match verdict {
                    Verdict::Admit { step } => {
                        &&& after.users@ == (match step {
                            Some(step) => before.users@.update(
                                i,
                                Record {
                                    totp_last_step: Some(step),
                                    ..before.users@[i]
                                },
                            ),
                            None => before.users@,
                        })
                        &&& match signed_in {
                            Ok((token, user)) => {
                                &&& token@.len() == 68 && starts(token@, login_prefix())
                                &&& user.id == before.users@[i].id
                                &&& before.distinct() ==> user.shows(&after.users@[i])
                                &&& after.logins@.len() == before.logins@.len() + 1
                                &&& after.logins@.drop_last() == before.logins@
                                &&& after.logins@.last().token_hash@ == hash_of(token@)
                                &&& after.logins@.last().user == user.id
                                &&& after.logins@.last().created_at == now
                                &&& after.logins@.last().expires_at == now
                                    + LOGIN_LIFETIME
                            },
                            Err(refused) => refused.is_internal() && after.logins@
                                == before.logins@,
                        }
                    },
                    Verdict::WrongPassword | Verdict::Disabled => {
                        &&& signed_in matches Err(Refused::WrongCredentials)
                        &&& after.users@ == before.users@
                        &&& after.logins@ == before.logins@
                    },
                    Verdict::CodeNeeded => {
                        &&& signed_in matches Err(Refused::TotpNeeded)
                        &&& after.users@ == before.users@
                        &&& after.logins@ == before.logins@
                    },
                    Verdict::WrongCode => {
                        &&& signed_in matches Err(Refused::WrongCode)
                        &&& after.users@ == before.users@
                        &&& after.logins@ == before.logins@
                    },
                }
            }
        }
    }

    /// Sign in; a session token for the console on success.
    pub fn sign_in(
        &mut self,
        name: &str,
        password: &str,
        code: Option<&str>,
        from: Ip,
        now: i64,
        clock: u64,
    ) -> (signed_in: Result<(String, User), Refused>)
        requires
            old(self).wf(),
            0 <= now <= i64::MAX - LOGIN_LIFETIME,
        ensures
            Accounts::sign_in_does(
                old(self),
                final(self),
                name,
                password,
                code,
                from,
                now,
                clock,
                signed_in,
            ),
    {
        let id: i64 = self.check_in(name, password, code, from, now, clock)?;
        proof {
            lemma_at_name(old(self).users@, name@);
            lemma_at(self.users@, id);
            let i = at_name(old(self).users@, name@);
            assert(self.users@[i].key() == id);
            if self.distinct() {
                super::rows::lemma_at_own(self.users@, i);
            }
            reveal_strlit("nhs_");
        }
        let ghost checked = *self;
        let opened = self.open_session(id, random_bytes(32), now);
        proof {
            assert forall|key: Key| #[trigger] self.wrong(key) == checked.wrong(key) by {}
            if let Ok((token, user)) = &opened {
                assert(token@.take(4) =~= login_prefix());
            }
        }
        opened
    }

    /// The user a console session token belongs to, while it lasts.
    pub fn session_user(&self, token: &str, now: i64) -> (user: Option<User>)
        requires
            fits(token@),
        ensures
            ({
                let i = if starts(token@, login_prefix()) {
                    session_at(self.logins@, self.users@, hash_of(token@), now)
                } else {
                    -1
                };
                match user {
                    Some(user) => 0 <= i < self.users@.len() && user.shows(&self.users@[i]),
                    None => i < 0,
                }
            }),
    {
        if !has_prefix(token, "nhs_") {
            return None;
        }
        let wanted = hash(token);
        let mut n: usize = self.logins.len();
        assert(self.logins@.take(n as int) =~= self.logins@);
        while n > 0
            invariant
                n <= self.logins@.len(),
                wanted@ == hash_of(token@),
                starts(token@, login_prefix()),
                session_at(self.logins@, self.users@, hash_of(token@), now) == session_at(
                    self.logins@.take(n as int),
                    self.users@,
                    hash_of(token@),
                    now,
                ),
            decreases n,
        {
            assert(self.logins@.take(n as int).drop_last() =~= self.logins@.take(n - 1));
            n = n - 1;
            if same_bytes(&self.logins[n].token_hash, &wanted) && self.logins[n].expires_at > now {
                proof {
                    lemma_at(self.users@, self.logins@[n as int].user);
                }
                match find(&self.users, self.logins[n].user) {
                    Some(i) => {
                        if !self.users[i].disabled {
                            return Some(user_of(&self.users[i]));
                        }
                    },
                    None => {},
                }
            }
        }
        None
    }

    /// What `sign_out` does.
    pub open spec fn sign_out_does(
        before: &Accounts,
        after: &Accounts,
        token: &str,
    ) -> bool {
        &&& after.wf()
        &&& after.users == before.users
        &&& after.same_rest(before)
        &&& after.logins@ == before.logins@.filter(other_logins(hash_of(token@)))
        &&& forall|now: i64| #[trigger]
            session_at(after.logins@, after.users@, hash_of(token@), now) < 0
    }

    /// The session is over; its token is worth nothing from now on.
    pub fn sign_out(&mut self, token: &str)
        requires
            old(self).wf(),
            fits(token@),
        ensures
            Accounts::sign_out_does(old(self), final(self), token),
    {
        let wanted = hash(token);
        let ghost hashed = hash_of(token@);
        let stays = |login: &Login| -> (yes: bool)
            ensures
                yes == (login.token_hash@ != wanted@),
            {
                !same_bytes(&login.token_hash, &wanted)
            };
        self.keep_logins(stays, Ghost(other_logins(hashed)));
        proof {
            super::rows::lemma_kept(old(self).logins@, other_logins(hashed));
            assert forall|now: i64| #[trigger]
                session_at(self.logins@, self.users@, hashed, now) < 0 by {
                lemma_no_session(self.logins@, self.users@, hashed, now);
            }
        }
    }

    fn keep_logins<F: Fn(&Login) -> bool>(
        &mut self,
        wanted: F,
        Ghost(which): Ghost<spec_fn(Login) -> bool>,
    )
        requires
            old(self).wf(),
            forall|login: &Login| call_requires(wanted, (login,)),
            forall|login: &Login, yes: bool|
                call_ensures(wanted, (login,), yes) ==> yes == which(*login),
        ensures
            final(self).wf(),
            final(self).users == old(self).users,
            final(self).same_rest(old(self)),
            final(self).logins@ == old(self).logins@.filter(which),
    {
        let mut logins: Vec<Login> = Vec::new();
        std::mem::swap(&mut logins, &mut self.logins);
        self.logins = keep(logins, wanted, Ghost(which));
    }
}

proof fn lemma_no_session(logins: Seq<Login>, users: Seq<Record>, hash: Seq<u8>, now: i64)
    requires
        forall|i: int| 0 <= i < logins.len() ==> (#[trigger] logins[i]).token_hash@ != hash,
    ensures
        session_at(logins, users, hash, now) < 0,
    decreases logins.len(),
{
    if logins.len() > 0 {
        assert forall|i: int| 0 <= i < logins.drop_last().len() implies (
        #[trigger] logins.drop_last()[i]).token_hash@ != hash by {
            assert(logins[i].token_hash@ != hash);
        }
        lemma_no_session(logins.drop_last(), users, hash, now);
    }
}

// --- API tokens ---------------------------------------------------------------------------

/// Where the API token with this hash is, if it stands for an account now;
/// -1 if it does not.
pub open spec fn token_at(
    tokens: Seq<TokenRecord>,
    users: Seq<Record>,
    hash: Seq<u8>,
    now: i64,
) -> int
    decreases tokens.len(),
{
    if tokens.len() == 0 {
        -1
    } else {
        let token = tokens.last();
        let i = at(users, token.user);
        if token.token_hash@ == hash && (token.expires_at matches Some(end) ==> end > now) && i >= 0
            && !users[i].disabled {
            tokens.len() - 1
        } else {
            token_at(tokens.drop_last(), users, hash, now)
        }
    }
}

/// The tokens, each with this hash noted as used now.
pub open spec fn noted(tokens: Seq<TokenRecord>, hash: Seq<u8>, now: i64) -> Seq<TokenRecord> {
    tokens.map_values(
        |token: TokenRecord|
            if token.token_hash@ == hash {
                TokenRecord { last_used_at: Some(now), ..token }
            } else {
                token
            },
    )
}

/// When a token that lasts so many days ends.
pub open spec fn token_end(lifetime_days: Option<u32>, now: i64) -> Option<int> {
    match lifetime_days {
        Some(days) => Some(now + days * 86_400),
        None => None,
    }
}

impl Accounts {
    /// What is kept but the accounts and the API tokens.
    pub open spec fn same_but_tokens(&self, other: &Accounts) -> bool {
        &&& self.users == other.users
        &&& self.logins == other.logins
        &&& self.setup_tokens == other.setup_tokens
        &&& self.attempts == other.attempts
    }

    /// Keep an API token for a user, made of drawn bytes.
    pub fn add_api_token(
        &mut self,
        user: i64,
        name: &str,
        lifetime_days: Option<u32>,
        drawn: Option<Vec<u8>>,
        now: i64,
    ) -> (added: Result<(ApiToken, String), Refused>)
        requires
            old(self).wf(),
            drawn matches Some(bytes) ==> bytes@.len() == 32,
            token_end(lifetime_days, now) matches Some(end) ==> end <= i64::MAX,
        ensures
            final(self).wf(),
            final(self).same_but_tokens(old(self)),
            match added {
                Ok((listed, token)) => {
                    &&& valid_name(name@)
                    &&& drawn matches Some(bytes) && token@ == api_prefix() + hex_of(bytes@)
                    &&& next_id(old(self).tokens@) == Some(listed.id)
                    &&& final(self).tokens@.len() == old(self).tokens@.len() + 1
                    &&& final(self).tokens@.drop_last() == old(self).tokens@
                    &&& listed.shows(&final(self).tokens@.last())
                    &&& listed.name@ == name@
                    &&& listed.created_at == now
                    &&& listed.last_used_at is None
                    &&& match token_end(lifetime_days, now) {
                        Some(end) => listed.expires_at matches Some(at) && at == end,
                        None => listed.expires_at is None,
                    }
                    &&& final(self).tokens@.last().user == user
                    &&& final(self).tokens@.last().token_hash@ == hash_of(token@)
                },
                Err(refused) => {
                    &&& final(self).tokens == old(self).tokens
                    &&& if !valid_name(name@) {
                        refused matches Refused::Invalid(why) && why@ == name_rule()
                    } else {
                        refused.is_internal() && (drawn is None || next_id(old(self).tokens@)
                            is None)
                    }
                },
            },
    {
        check_name(name)?;
        let bytes = match drawn {
            Some(bytes) => bytes,
            None => {
                return Err(internal());
            },
        };
        let id = match fresh_id(&self.tokens) {
            Some(id) => id,
            None => {
                return Err(internal());
            },
        };
        let token = token_of("nht_", &bytes);
        proof {
            reveal_strlit("nht_");
            lemma_short_fits(token@);
        }
        let expires_at: Option<i64> = match lifetime_days {
            Some(days) => Some(now + days as i64 * 86_400),
            None => None,
        };
        let record = TokenRecord {
            id,
            user,
            name: name.to_owned(),
            token_hash: hash(&token),
            created_at: now,
            last_used_at: None,
            expires_at,
        };
        let listed = api_token_of(&record);
        self.tokens.push(record);
        assert(self.tokens@.drop_last() =~= old(self).tokens@);
        Ok((listed, token))
    }

    /// What `new_api_token` does.
    pub open spec fn new_api_token_does(
        before: &Accounts,
        after: &Accounts,
        user: &User,
        name: &str,
        lifetime_days: Option<u32>,
        now: i64,
        added: Result<(ApiToken, String), Refused>,
    ) -> bool {
        &&& after.wf()
        &&& after.same_but_tokens(before)
        &&& match added {
            Ok((listed, token)) => {
                &&& valid_name(name@)
                &&& token@.len() == 68 && starts(token@, api_prefix())
                &&& next_id(before.tokens@) == Some(listed.id)
                &&& after.tokens@.len() == before.tokens@.len() + 1
                &&& after.tokens@.drop_last() == before.tokens@
                &&& listed.shows(&after.tokens@.last())
                &&& listed.name@ == name@ && listed.created_at == now
                &&& match token_end(lifetime_days, now) {
                    Some(end) => listed.expires_at matches Some(at) && at == end,
                    None => listed.expires_at is None,
                }
                &&& after.tokens@.last().user == user.id
                &&& after.tokens@.last().token_hash@ == hash_of(token@)
            },
            Err(refused) => {
                &&& after.tokens == before.tokens
                &&& if !valid_name(name@) {
                    refused matches Refused::Invalid(why) && why@ == name_rule()
                } else {
                    refused.is_internal()
                }
            },
        }
    }

    /// A new API token for `user`, shown this once.
    pub fn new_api_token(
        &mut self,
        user: &User,
        name: &str,
        lifetime_days: Option<u32>,
        now: i64,
    ) -> (added: Result<(ApiToken, String), Refused>)
        requires
            old(self).wf(),
            token_end(lifetime_days, now) matches Some(end) ==> end <= i64::MAX,
        ensures
            Accounts::new_api_token_does(
                old(self),
                final(self),
                user,
                name,
                lifetime_days,
                now,
                added,
            ),
    {
        let added = self.add_api_token(user.id, name, lifetime_days, random_bytes(32), now);
        proof {
            reveal_strlit("nht_");
            if let Ok((_, token)) = &added {
                assert(token@.take(4) =~= api_prefix());
            }
        }
        added
    }

    /// What `api_user` does.
    pub open spec fn api_user_does(
        before: &Accounts,
        after: &Accounts,
        token: &str,
        now: i64,
        user: Option<User>,
    ) -> bool {
        &&& after.wf()
        &&& after.same_but_tokens(before)
        &&& {
            let i = if starts(token@, api_prefix()) {
                token_at(before.tokens@, before.users@, hash_of(token@), now)
            } else {
                -1
            };
            match user {
                Some(user) => {
                    let owner = at(before.users@, before.tokens@[i].user);
                    &&& 0 <= i < before.tokens@.len()
                    &&& owner >= 0 && user.shows(&before.users@[owner])
                    &&& after.tokens@ == noted(before.tokens@, hash_of(token@), now)
                },
                None => i < 0 && after.tokens == before.tokens,
            }
        }
    }

    /// The user an API token belongs to, while it is valid. Notes its use.
    pub fn api_user(&mut self, token: &str, now: i64) -> (user: Option<User>)
        requires
            old(self).wf(),
            fits(token@),
        ensures
            Accounts::api_user_does(old(self), final(self), token, now, user),
    {
        if !has_prefix(token, "nht_") {
            return None;
        }
        let wanted = hash(token);
        let mut user: Option<User> = None;
        let mut n: usize = self.tokens.len();
        assert(self.tokens@.take(n as int) =~= self.tokens@);
        while n > 0 && user.is_none()
            invariant
                n <= self.tokens@.len(),
                *self == *old(self),
                wanted@ == hash_of(token@),
                match user {
                    None => token_at(self.tokens@, self.users@, hash_of(token@), now) == token_at(
                        self.tokens@.take(n as int),
                        self.users@,
                        hash_of(token@),
                        now,
                    ),
                    Some(user) => {
                        let i = token_at(self.tokens@, self.users@, hash_of(token@), now);
                        &&& 0 <= i < self.tokens@.len()
                        &&& at(self.users@, self.tokens@[i].user) >= 0
                        &&& user.shows(&self.users@[at(self.users@, self.tokens@[i].user)])
                    },
                },
            decreases n,
        {
            assert(self.tokens@.take(n as int).drop_last() =~= self.tokens@.take(n - 1));
            n = n - 1;
            let lasts = match self.tokens[n].expires_at {
                Some(end) => end > now,
                None => true,
            };
            if same_bytes(&self.tokens[n].token_hash, &wanted) && lasts {
                proof {
                    lemma_at(self.users@, self.tokens@[n as int].user);
                }
                match find(&self.users, self.tokens[n].user) {
                    Some(i) => {
                        if !self.users[i].disabled {
                            user = Some(user_of(&self.users[i]));
                        }
                    },
                    None => {},
                }
            }
        }
        if user.is_some() {
            self.note_use(&wanted, now);
        }
        user
    }

    fn note_use(&mut self, hash: &[u8], now: i64)
        requires
            old(self).wf(),
        ensures
            final(self).wf(),
            final(self).same_but_tokens(old(self)),
            final(self).tokens@ == noted(old(self).tokens@, hash@, now),
    {
        let mut n: usize = 0;
        while n < self.tokens.len()
            invariant
                self.wf(),
                self.same_but_tokens(old(self)),
                n <= self.tokens@.len(),
                self.tokens@.len() == old(self).tokens@.len(),
                forall|i: int|
                    0 <= i < n ==> #[trigger] self.tokens@[i] == noted(
                        old(self).tokens@,
                        hash@,
                        now,
                    )[i],
                forall|i: int|
                    n <= i < self.tokens@.len() ==> #[trigger] self.tokens@[i] == old(
                        self).tokens@[i],
            decreases self.tokens.len() - n,
        {
            if same_bytes(&self.tokens[n].token_hash, hash) {
                self.tokens[n].last_used_at = Some(now);
            }
            n = n + 1;
        }
        assert(self.tokens@ =~= noted(old(self).tokens@, hash@, now));
    }

    /// A user's API tokens, in the order they were made.
    pub fn api_tokens(&self, user: &User) -> (listed: Vec<ApiToken>)
        ensures
            ({
                let own = self.tokens@.filter(tokens_of(user.id));
                &&& listed@.len() == own.len()
                &&& forall|i: int| 0 <= i < own.len() ==> (#[trigger] listed@[i]).shows(&own[i])
            }),
    {
        let mut listed: Vec<ApiToken> = Vec::new();
        let mut n: usize = 0;
        assert(self.tokens@.take(0).filter(tokens_of(user.id)) =~= Seq::<TokenRecord>::empty()) by {
            reveal(Seq::filter);
        }
        while n < self.tokens.len()
            invariant
                n <= self.tokens@.len(),
                listed@.len() == self.tokens@.take(n as int).filter(tokens_of(user.id)).len(),
                forall|i: int|
                    0 <= i < listed@.len() ==> (#[trigger] listed@[i]).shows(
                        &self.tokens@.take(n as int).filter(tokens_of(user.id))[i],
                    ),
            decreases self.tokens.len() - n,
        {
            proof {
                reveal(Seq::filter);
                assert(self.tokens@.take(n + 1).drop_last() =~= self.tokens@.take(n as int));
                assert(self.tokens@.take(n + 1).last() == self.tokens@[n as int]);
            }
            if self.tokens[n].user == user.id {
                listed.push(api_token_of(&self.tokens[n]));
            }
            n = n + 1;
        }
        assert(self.tokens@.take(n as int) =~= self.tokens@);
        listed
    }

    /// What `delete_api_token` does.
    pub open spec fn delete_api_token_does(
        before: &Accounts,
        after: &Accounts,
        user: &User,
        id: i64,
        deleted: Result<(), Refused>,
    ) -> bool {
        &&& after.wf()
        &&& after.same_but_tokens(before)
        &&& after.tokens@ == before.tokens@.filter(tokens_but(id, user.id))
        &&& {
            let held = exists|i: int|
                0 <= i < before.tokens@.len() && (#[trigger] before.tokens@[i]).id == id
                    && before.tokens@[i].user == user.id;
            match deleted {
                Ok(()) => held,
                Err(refused) => refused is NotFound && !held && after.tokens@ == before.tokens@,
            }
        }
    }

    /// Delete one of a user's API tokens.
    pub fn delete_api_token(&mut self, user: &User, id: i64) -> (deleted: Result<(), Refused>)
        requires
            old(self).wf(),
        ensures
            Accounts::delete_api_token_does(old(self), final(self), user, id, deleted),
    {
        let owner: i64 = user.id;
        let before: usize = self.tokens.len();
        let mut tokens: Vec<TokenRecord> = Vec::new();
        std::mem::swap(&mut tokens, &mut self.tokens);
        let stays = |token: &TokenRecord| -> (yes: bool)
            ensures
                yes == !(token.id == id && token.user == owner),
            {
                !(token.id == id && token.user == owner)
            };
        let left = keep(tokens, stays, Ghost(tokens_but(id, owner)));
        let after: usize = left.len();
        self.tokens = left;
        proof {
            super::rows::lemma_kept(old(self).tokens@, tokens_but(id, owner));
            super::rows::lemma_all_or_fewer(old(self).tokens@, tokens_but(id, owner));
        }
        if after == before {
            Err(Refused::NotFound)
        } else {
            Ok(())
        }
    }
}

/// The API tokens of one user.
pub open spec fn tokens_of(user: i64) -> spec_fn(TokenRecord) -> bool {
    |token: TokenRecord| token.user == user
}

// --- Changing an account --------------------------------------------------------------------

/// An account that can administer.
pub open spec fn active_admin(record: Record) -> bool {
    record.admin && !record.disabled
}

/// How many accounts can administer.
pub open spec fn admins(users: Seq<Record>) -> nat
    decreases users.len(),
{
    if users.len() == 0 {
        0
    } else {
        admins(users.drop_last()) + (if active_admin(users.last()) {
            1nat
        } else {
            0nat
        })
    }
}

proof fn lemma_admins_update(users: Seq<Record>, i: int, record: Record)
    requires
        0 <= i < users.len(),
    ensures
        admins(users.update(i, record)) == admins(users) - (if active_admin(users[i]) {
            1int
        } else {
            0int
        }) + (if active_admin(record) {
            1int
        } else {
            0int
        }),
    decreases users.len(),
{
    let after = users.update(i, record);
    if i == users.len() - 1 {
        assert(after.drop_last() =~= users.drop_last());
    } else {
        assert(after.drop_last() =~= users.drop_last().update(i, record));
        lemma_admins_update(users.drop_last(), i, record);
    }
}

/// Without one account there is at most one administrator fewer.
proof fn lemma_admins_without(users: Seq<Record>, id: i64)
    requires
        numbered(users),
    ensures
        admins(users.filter(users_but(id))) >= admins(users) - (if at(users, id) >= 0
            && active_admin(users[at(users, id)]) {
            1int
        } else {
            0int
        }),
    decreases users.len(),
{
    reveal(Seq::filter);
    if users.len() > 0 {
        let less = users.drop_last();
        assert forall|i: int, j: int| 0 <= i < j < less.len() implies (#[trigger] less[i]).key()
            != (#[trigger] less[j]).key() by {
            assert(users[i] == less[i] && users[j] == less[j]);
        }
        lemma_admins_without(less, id);
        lemma_at(less, id);
        if users.last().id != id {
            assert(less.filter(users_but(id)).push(users.last()).drop_last() =~= less.filter(
                users_but(id),
            ));
        } else {
            if at(less, id) >= 0 {
                assert(users[at(less, id)].key() != users[users.len() - 1].key());
            }
        }
    }
}

impl Accounts {
    fn active_admins(&self) -> (count: usize)
        ensures
            count == admins(self.users@),
    {
        let mut count: usize = 0;
        let mut i: usize = 0;
        while i < self.users.len()
            invariant
                i <= self.users@.len(),
                count <= i,
                count == admins(self.users@.take(i as int)),
            decreases self.users.len() - i,
        {
            assert(self.users@.take(i + 1).drop_last() =~= self.users@.take(i as int));
            if self.users[i].admin && !self.users[i].disabled {
                count = count + 1;
            }
            i = i + 1;
        }
        assert(self.users@.take(i as int) =~= self.users@);
        count
    }

    /// Every account, by name.
    pub fn users(&self) -> (listed: Vec<User>)
        ensures
            exists|order: Seq<usize>|
                {
                    &&& #[trigger] places(self.users@, order)
                    &&& listed@.len() == order.len()
                    &&& forall|i: int|
                        0 <= i < listed@.len() ==> (#[trigger] listed@[i]).shows(
                            &self.users@[order[i] as int],
                        )
                },
    {
        let order = in_order(&self.users);
        let mut listed: Vec<User> = Vec::new();
        let mut i: usize = 0;
        while i < order.len()
            invariant
                i <= order@.len(),
                places(self.users@, order@),
                listed@.len() == i,
                forall|j: int|
                    0 <= j < i ==> (#[trigger] listed@[j]).shows(
                        &self.users@[order@[j] as int],
                    ),
            decreases order.len() - i,
        {
            listed.push(user_of(&self.users[order[i]]));
            i = i + 1;
        }
        listed
    }

    /// What is kept but the accounts.
    pub open spec fn same_but_users(&self, other: &Accounts) -> bool {
        &&& self.logins == other.logins
        &&& self.tokens == other.tokens
        &&& self.setup_tokens == other.setup_tokens
        &&& self.attempts == other.attempts
    }

    /// Put a new password's hash in place of the old one's, and end the
    /// sessions opened with that.
    pub fn replace_password(&mut self, id: i64, hashed: Result<String, String>) -> (changed: Result<
        (),
        Refused,
    >)
        requires
            old(self).wf(),
            at(old(self).users@, id) >= 0,
        ensures
            final(self).wf(),
            old(self).distinct() ==> final(self).distinct(),
            final(self).same_rest(old(self)),
            match (hashed, changed) {
                (Ok(hash), Ok(())) => {
                    let i = at(old(self).users@, id);
                    &&& final(self).users@.len() == old(self).users@.len()
                    &&& final(self).users@[i].password_hash@ == hash@
                    &&& final(self).users@ == old(self).users@.update(
                        i,
                        Record {
                            password_hash: final(self).users@[i].password_hash,
                            ..old(self).users@[i]
                        },
                    )
                    &&& final(self).logins@ == old(self).logins@.filter(logins_of_others(id))
                },
                (Err(_), Err(refused)) => refused.is_internal() && final(self).users == old(
                    self).users && final(self).logins == old(self).logins,
                _ => false,
            },
    {
        let hash = match hashed {
            Ok(hash) => hash,
            Err(_) => {
                return Err(internal());
            },
        };
        match find(&self.users, id) {
            Some(i) => {
                self.users[i].password_hash = hash;
                assert(self.users@ =~= old(self).users@.update(
                    i as int,
                    Record {
                        password_hash: self.users@[i as int].password_hash,
                        ..old(self).users@[i as int]
                    },
                ));
                proof {
                    lemma_update_keeps(*old(self), *self, i as int);
                }
            },
            None => {},
        }
        // Whoever knew the old password may be signed in with it.
        let stays = |login: &Login| -> (yes: bool)
            ensures
                yes == (login.user != id),
            {
                login.user != id
            };
        self.keep_logins(stays, Ghost(logins_of_others(id)));
        Ok(())
    }

    /// What `change_password` does.
    pub open spec fn change_password_does(
        before: &Accounts,
        after: &Accounts,
        user: &User,
        current: &str,
        new: &str,
        changed: Result<(), Refused>,
    ) -> bool {
        &&& after.wf()
        &&& before.distinct() ==> after.distinct()
        &&& after.same_rest(before)
        &&& {
            let i = at(before.users@, user.id);
            match changed {
                Ok(()) => {
                    &&& new@.len() >= MIN_PASSWORD
                    &&& i >= 0
                    &&& password_matches(current@, before.users@[i].password_hash@)
                    &&& after.users@.len() == before.users@.len()
                    &&& password_matches(new@, after.users@[i].password_hash@)
                    &&& after.users@ == before.users@.update(
                        i,
                        Record {
                            password_hash: after.users@[i].password_hash,
                            ..before.users@[i]
                        },
                    )
                    &&& after.logins@ == before.logins@.filter(
                        logins_of_others(user.id),
                    )
                },
                Err(refused) => {
                    &&& after.users == before.users
                    &&& after.logins == before.logins
                    &&& if new@.len() < MIN_PASSWORD {
                        refused matches Refused::Invalid(why) && why@ == password_rule()
                    } else if i < 0 {
                        refused.is_internal()
                    } else if !password_matches(
                        current@,
                        before.users@[i].password_hash@,
                    ) {
                        refused is WrongCredentials
                    } else {
                        refused.is_internal()
                    }
                },
            }
        }
    }

    /// Change a user's password, given the current one. Their sessions end.
    pub fn change_password(&mut self, user: &User, current: &str, new: &str) -> (changed: Result<
        (),
        Refused,
    >)
        requires
            old(self).wf(),
        ensures
            Accounts::change_password_does(old(self), final(self), user, current, new, changed),
    {
        check_password(new)?;
        match find(&self.users, user.id) {
            None => {
                return Err(internal());
            },
            Some(i) => {
                if !argon2_verify(current, &self.users[i].password_hash) {
                    return Err(Refused::WrongCredentials);
                }
            },
        }
        self.replace_password(user.id, argon2_hash(new))
    }

    /// Start turning TOTP on with a new secret, not in force until confirmed
    /// with a code from it. Returns the secret, in base32, and the app link.
    pub fn begin_totp(&mut self, user: &User, drawn: Result<Vec<u8>, String>) -> (begun: Result<
        (String, String),
        Refused,
    >)
        requires
            old(self).wf(),
            drawn matches Ok(secret) ==> hashable(secret@.len()),
        ensures
            final(self).wf(),
            old(self).distinct() ==> final(self).distinct(),
            final(self).same_but_users(old(self)),
            match (drawn, begun) {
                (Ok(secret), Ok((text, link))) => {
                    let i = at(old(self).users@, user.id);
                    &&& text@ == totp::base32_of(secret@)
                    &&& link@ == totp::uri_of(secret@, "Nearhand"@, user.name@)
                    &&& if i >= 0 {
                        final(self).users@ == old(self).users@.update(
                            i,
                            Record { totp_pending: Some(secret), ..old(self).users@[i] },
                        )
                    } else {
                        final(self).users@ == old(self).users@
                    }
                },
                (Err(_), Err(refused)) => refused.is_internal() && final(self).users == old(
                    self).users,
                _ => false,
            },
    {
        let secret = match drawn {
            Ok(secret) => secret,
            Err(_) => {
                return Err(internal());
            },
        };
        let text = totp::base32(&secret);
        let link = totp::uri(&secret, "Nearhand", &user.name);
        match find(&self.users, user.id) {
            Some(i) => {
                let ghost kept_secret = secret;
                self.users[i].totp_pending = Some(secret);
                assert(self.users@ =~= old(self).users@.update(
                    i as int,
                    Record { totp_pending: Some(kept_secret), ..old(self).users@[i as int] },
                ));
                proof {
                    lemma_update_keeps(*old(self), *self, i as int);
                }
            },
            None => {},
        }
        Ok((text, link))
    }

    /// What `totp_begin` does.
    pub open spec fn totp_begin_does(
        before: &Accounts,
        after: &Accounts,
        user: &User,
        begun: Result<(String, String), Refused>,
    ) -> bool {
        &&& after.wf()
        &&& before.distinct() ==> after.distinct()
        &&& after.same_but_users(before)
        &&& match begun {
            Ok((text, link)) => exists|secret: Vec<u8>|
                {
                    let i = at(before.users@, user.id);
                    &&& (#[trigger] secret@).len() == totp::SECRET_LEN
                    &&& text@ == totp::base32_of(secret@)
                    &&& link@ == totp::uri_of(secret@, "Nearhand"@, user.name@)
                    &&& if i >= 0 {
                        after.users@ == before.users@.update(
                            i,
                            Record { totp_pending: Some(secret), ..before.users@[i] },
                        )
                    } else {
                        after.users@ == before.users@
                    }
                },
            Err(refused) => refused.is_internal() && after.users == before.users,
        }
    }

    /// Start turning TOTP on.
    pub fn totp_begin(&mut self, user: &User) -> (begun: Result<(String, String), Refused>)
        requires
            old(self).wf(),
        ensures
            Accounts::totp_begin_does(old(self), final(self), user, begun),
    {
        let drawn = totp::new_secret();
        let ghost secret = drawn->Ok_0;
        let begun = self.begin_totp(user, drawn);
        assert(begun is Ok ==> secret@.len() == totp::SECRET_LEN);
        begun
    }

    /// What `totp_confirm` does.
    pub open spec fn totp_confirm_does(
        before: &Accounts,
        after: &Accounts,
        user: &User,
        code: &str,
        now: i64,
        confirmed: Result<(), Refused>,
    ) -> bool {
        &&& after.wf()
        &&& before.distinct() ==> after.distinct()
        &&& after.same_but_users(before)
        &&& {
            let i = at(before.users@, user.id);
            let pending = before.users@[i].totp_pending;
            match confirmed {
                Ok(()) => {
                    &&& i >= 0
                    &&& pending matches Some(secret) && totp::step_of(
                        secret@,
                        code@,
                        now as u64,
                    ) matches Some(step) && after.users@ == before.users@.update(
                        i,
                        Record {
                            totp_secret: Some(secret),
                            totp_pending: None,
                            totp_last_step: Some(step as i64),
                            ..before.users@[i]
                        },
                    )
                },
                Err(refused) => {
                    &&& after.users == before.users
                    &&& if i < 0 {
                        refused.is_internal()
                    } else {
                        match pending {
                            None => refused matches Refused::Invalid(why) && why@
                                == "start setting up TOTP first"@,
                            Some(secret) => refused is WrongCode && totp::step_of(
                                secret@,
                                code@,
                                now as u64,
                            ) is None,
                        }
                    }
                },
            }
        }
    }

    /// Turn TOTP on, with a code from the secret that is not in force yet.
    pub fn totp_confirm(&mut self, user: &User, code: &str, now: i64) -> (confirmed: Result<
        (),
        Refused,
    >)
        requires
            old(self).wf(),
            now >= 0,
        ensures
            Accounts::totp_confirm_does(old(self), final(self), user, code, now, confirmed),
    {
        let i = match find(&self.users, user.id) {
            Some(i) => i,
            None => {
                return Err(internal());
            },
        };
        let step: i64 = match &self.users[i].totp_pending {
            None => {
                return Err(Refused::Invalid("start setting up TOTP first".to_owned()));
            },
            Some(secret) => {
                proof {
                    totp::lemma_one_step_either_side(secret@, code@, now as u64);
                }
                match totp::verify(secret, code, now as u64) {
                    Some(step) => step as i64,
                    None => {
                        return Err(Refused::WrongCode);
                    },
                }
            },
        };
        let mut pending: Option<Vec<u8>> = None;
        let ghost secret = self.users@[i as int].totp_pending;
        std::mem::swap(&mut pending, &mut self.users[i].totp_pending);
        self.users[i].totp_secret = pending;
        self.users[i].totp_last_step = Some(step);
        assert(self.users@ =~= old(self).users@.update(
            i as int,
            Record {
                totp_secret: secret,
                totp_pending: None,
                totp_last_step: Some(step),
                ..old(self).users@[i as int]
            },
        ));
        proof {
            lemma_update_keeps(*old(self), *self, i as int);
        }
        Ok(())
    }

    /// What `totp_disable` does.
    pub open spec fn totp_disable_does(
        before: &Accounts,
        after: &Accounts,
        user: &User,
        code: &str,
        now: i64,
        disabled: Result<(), Refused>,
    ) -> bool {
        &&& after.wf()
        &&& before.distinct() ==> after.distinct()
        &&& after.same_but_users(before)
        &&& {
            let i = at(before.users@, user.id);
            let secret = before.users@[i].totp_secret;
            match disabled {
                Ok(()) => {
                    &&& i >= 0
                    &&& secret matches Some(secret) && totp::step_of(
                        secret@,
                        code@,
                        now as u64,
                    ) is Some
                    &&& after.users@ == before.users@.update(
                        i,
                        Record {
                            totp_secret: None,
                            totp_last_step: None,
                            ..before.users@[i]
                        },
                    )
                },
                Err(refused) => {
                    &&& after.users == before.users
                    &&& if i < 0 {
                        refused.is_internal()
                    } else {
                        match secret {
                            None => refused matches Refused::Invalid(why) && why@
                                == "TOTP is not on"@,
                            Some(secret) => refused is WrongCode && totp::step_of(
                                secret@,
                                code@,
                                now as u64,
                            ) is None,
                        }
                    }
                },
            }
        }
    }

    /// Turn TOTP off, with a current code: a stolen session alone cannot.
    pub fn totp_disable(&mut self, user: &User, code: &str, now: i64) -> (disabled: Result<
        (),
        Refused,
    >)
        requires
            old(self).wf(),
            now >= 0,
        ensures
            Accounts::totp_disable_does(old(self), final(self), user, code, now, disabled),
    {
        let i = match find(&self.users, user.id) {
            Some(i) => i,
            None => {
                return Err(internal());
            },
        };
        match &self.users[i].totp_secret {
            None => {
                return Err(Refused::Invalid("TOTP is not on".to_owned()));
            },
            Some(secret) => {
                if totp::verify(secret, code, now as u64).is_none() {
                    return Err(Refused::WrongCode);
                }
            },
        }
        self.users[i].totp_secret = None;
        self.users[i].totp_last_step = None;
        assert(self.users@ =~= old(self).users@.update(
            i as int,
            Record { totp_secret: None, totp_last_step: None, ..old(self).users@[i as int] },
        ));
        proof {
            lemma_update_keeps(*old(self), *self, i as int);
        }
        Ok(())
    }

    /// What `update_user` does.
    pub open spec fn update_user_does(
        before: &Accounts,
        after: &Accounts,
        id: i64,
        admin: Option<bool>,
        disabled: Option<bool>,
        changed: Result<User, Refused>,
    ) -> bool {
        &&& after.wf()
        &&& before.distinct() ==> after.distinct()
        &&& after.same_rest(before)
        &&& admins(before.users@) >= 1 ==> admins(after.users@) >= 1
        &&& {
            let i = at(before.users@, id);
            let losing = active_admin(before.users@[i]) && (admin == Some(false) || disabled
                == Some(true));
            match changed {
                Ok(user) => {
                    &&& i >= 0
                    &&& !(losing && admins(before.users@) <= 1)
                    &&& after.users@ == before.users@.update(
                        i,
                        Record {
                            admin: match admin {
                                Some(admin) => admin,
                                None => before.users@[i].admin,
                            },
                            disabled: match disabled {
                                Some(disabled) => disabled,
                                None => before.users@[i].disabled,
                            },
                            ..before.users@[i]
                        },
                    )
                    &&& after.logins@ == (if disabled == Some(true) {
                        before.logins@.filter(logins_of_others(id))
                    } else {
                        before.logins@
                    })
                    &&& user.shows(&after.users@[i])
                },
                Err(refused) => {
                    &&& after.users == before.users
                    &&& after.logins == before.logins
                    &&& if i < 0 {
                        refused is NotFound
                    } else {
                        &&& losing && admins(before.users@) <= 1
                        &&& refused matches Refused::Invalid(why) && why@
                            == "this is the last administrator; make another one first"@
                    }
                },
            }
        }
    }

    /// Change another user's standing. The last active administrator cannot
    /// be demoted, disabled or deleted: someone must be left to administer.
    /// Disabling a user ends their sessions.
    pub fn update_user(&mut self, id: i64, admin: Option<bool>, disabled: Option<bool>) -> (changed:
        Result<User, Refused>)
        requires
            old(self).wf(),
        ensures
            Accounts::update_user_does(old(self), final(self), id, admin, disabled, changed),
    {
        let i = match find(&self.users, id) {
            Some(i) => i,
            None => {
                return Err(Refused::NotFound);
            },
        };
        let demoted = match admin {
            Some(admin) => !admin,
            None => false,
        };
        let ended = match disabled {
            Some(disabled) => disabled,
            None => false,
        };
        let losing = self.users[i].admin && !self.users[i].disabled && (demoted || ended);
        if losing && self.active_admins() <= 1 {
            return Err(
                Refused::Invalid(
                    "this is the last administrator; make another one first".to_owned(),
                ),
            );
        }
        match admin {
            Some(admin) => {
                self.users[i].admin = admin;
            },
            None => {},
        }
        match disabled {
            Some(disabled) => {
                self.users[i].disabled = disabled;
            },
            None => {},
        }
        let ghost record = self.users@[i as int];
        proof {
            assert(self.users@ =~= old(self).users@.update(i as int, record));
            lemma_update_keeps(*old(self), *self, i as int);
            lemma_admins_update(old(self).users@, i as int, record);
        }
        if ended {
            let stays = |login: &Login| -> (yes: bool)
                ensures
                    yes == (login.user != id),
                {
                    login.user != id
                };
            self.keep_logins(stays, Ghost(logins_of_others(id)));
        }
        Ok(user_of(&self.users[i]))
    }

    /// What `delete_user` does.
    pub open spec fn delete_user_does(
        before: &Accounts,
        after: &Accounts,
        id: i64,
        deleted: Result<(), Refused>,
    ) -> bool {
        &&& after.wf()
        &&& before.distinct() ==> after.distinct()
        &&& after.setup_tokens == before.setup_tokens
        &&& after.attempts == before.attempts
        &&& before.distinct() && admins(before.users@) >= 1 ==> admins(after.users@)
            >= 1
        &&& {
            let i = at(before.users@, id);
            let last = active_admin(before.users@[i]) && admins(before.users@) <= 1;
            match deleted {
                Ok(()) => {
                    &&& i >= 0 && !last
                    &&& after.users@ == before.users@.filter(users_but(id))
                    &&& after.logins@ == before.logins@.filter(logins_of_others(id))
                    &&& after.tokens@ == before.tokens@.filter(tokens_of_others(id))
                },
                Err(refused) => {
                    &&& after.users == before.users
                    &&& after.logins == before.logins
                    &&& after.tokens == before.tokens
                    &&& if i < 0 {
                        refused is NotFound
                    } else {
                        &&& last
                        &&& refused matches Refused::Invalid(why) && why@
                            == "this is the last administrator; make another one first"@
                    }
                },
            }
        }
    }

    /// Delete an account, with its sessions and API tokens.
    pub fn delete_user(&mut self, id: i64) -> (deleted: Result<(), Refused>)
        requires
            old(self).wf(),
        ensures
            Accounts::delete_user_does(old(self), final(self), id, deleted),
    {
        let i = match find(&self.users, id) {
            Some(i) => i,
            None => {
                return Err(Refused::NotFound);
            },
        };
        if self.users[i].admin && !self.users[i].disabled && self.active_admins() <= 1 {
            return Err(
                Refused::Invalid(
                    "this is the last administrator; make another one first".to_owned(),
                ),
            );
        }
        let mut users: Vec<Record> = Vec::new();
        std::mem::swap(&mut users, &mut self.users);
        let remains = |record: &Record| -> (yes: bool)
            ensures
                yes == (record.id != id),
            {
                record.id != id
            };
        self.users = keep(users, remains, Ghost(users_but(id)));
        let mut tokens: Vec<TokenRecord> = Vec::new();
        std::mem::swap(&mut tokens, &mut self.tokens);
        let usable = |token: &TokenRecord| -> (yes: bool)
            ensures
                yes == (token.user != id),
            {
                token.user != id
            };
        self.tokens = keep(tokens, usable, Ghost(tokens_of_others(id)));
        proof {
            let before = old(self).users@;
            let after = self.users@;
            super::rows::lemma_kept(before, users_but(id));
            assert forall|n: int|
                #![trigger after[n]]
                0 <= n < after.len() implies {
                &&& after[n].totp_secret matches Some(secret) ==> hashable(secret@.len())
                &&& after[n].totp_pending matches Some(secret) ==> hashable(secret@.len())
            } by {
                let m = choose|m: int| 0 <= m < before.len() && before[m] == after[n];
                assert(before[m] == after[n]);
            }
            if old(self).distinct() {
                lemma_distinct_kept(before, users_but(id));
                super::rows::lemma_numbered_kept(before, users_but(id));
                lemma_admins_without(before, id);
            }
        }
        let stays = |login: &Login| -> (yes: bool)
            ensures
                yes == (login.user != id),
            {
                login.user != id
            };
        self.keep_logins(stays, Ghost(logins_of_others(id)));
        Ok(())
    }
}

/// Changing one account, but not its number or name, keeps them distinct.
proof fn lemma_update_keeps(before: Accounts, after: Accounts, i: int)
    requires
        0 <= i < before.users@.len(),
        after.users@ == before.users@.update(i, after.users@[i]),
        after.users@[i].id == before.users@[i].id,
        after.users@[i].name@ == before.users@[i].name@,
    ensures
        before.distinct() ==> after.distinct(),
{
    if before.distinct() {
        assert forall|a: int, b: int| 0 <= a < b < after.users@.len() implies !same_but_case(
            (#[trigger] after.users@[a]).name@,
            (#[trigger] after.users@[b]).name@,
        ) && after.users@[a].key() != after.users@[b].key() by {
            assert(after.users@[a].name@ == before.users@[a].name@);
            assert(after.users@[b].name@ == before.users@[b].name@);
            assert(after.users@[a].id == before.users@[a].id);
            assert(after.users@[b].id == before.users@[b].id);
            assert(before.users@[a].key() != before.users@[b].key());
        }
    }
}

proof fn lemma_distinct_kept(users: Seq<Record>, which: spec_fn(Record) -> bool)
    requires
        forall|i: int, j: int|
            0 <= i < j < users.len() ==> !same_but_case(
                (#[trigger] users[i]).name@,
                (#[trigger] users[j]).name@,
            ),
    ensures
        forall|i: int, j: int|
            0 <= i < j < users.filter(which).len() ==> !same_but_case(
                (#[trigger] users.filter(which)[i]).name@,
                (#[trigger] users.filter(which)[j]).name@,
            ),
    decreases users.len(),
{
    reveal(Seq::filter);
    if users.len() > 0 {
        let less = users.drop_last();
        assert forall|i: int, j: int| 0 <= i < j < less.len() implies !same_but_case(
            (#[trigger] less[i]).name@,
            (#[trigger] less[j]).name@,
        ) by {
            assert(users[i] == less[i] && users[j] == less[j]);
        }
        lemma_distinct_kept(less, which);
        super::rows::lemma_kept(less, which);
        let all = users.filter(which);
        let held = less.filter(which);
        assert forall|i: int, j: int| 0 <= i < j < all.len() implies !same_but_case(
            (#[trigger] all[i]).name@,
            (#[trigger] all[j]).name@,
        ) by {
            assert(all[i] == held[i]);
            if j < held.len() {
                assert(all[j] == held[j]);
            } else {
                let m = choose|m: int| 0 <= m < less.len() && less[m] == held[i];
                assert(users[m] == held[i]);
                assert(all[j] == users[users.len() - 1]);
            }
        }
    }
}

/// Whoever signs in is someone from then on: the session's token stands for
/// their account until it ends, as long as the account stays as it is.
pub proof fn lemma_signing_in_makes_someone(
    before: Accounts,
    after: Accounts,
    name: &str,
    password: &str,
    code: Option<&str>,
    from: Ip,
    now: i64,
    clock: u64,
    token: String,
    user: User,
    later: i64,
)
    requires
        before.distinct(),
        Accounts::sign_in_does(
            &before,
            &after,
            name,
            password,
            code,
            from,
            now,
            clock,
            Ok((token, user)),
        ),
        later < now + LOGIN_LIFETIME,
    ensures
        ({
            let i = session_at(after.logins@, after.users@, hash_of(token@), later);
            &&& 0 <= i < after.users@.len()
            &&& same_but_case(after.users@[i].name@, name@)
            &&& user.shows(&after.users@[i])
        }),
{
    let i = at_name(before.users@, name@);
    lemma_at_name(before.users@, name@);
    assert(0 <= i < before.users@.len());
    assert(after.users@[i].id == before.users@[i].id);
    lemma_at(after.users@, user.id);
    let found = at(after.users@, user.id);
    assert(after.distinct());
    assert(after.users@[i].key() == user.id);
    assert(found == i);
}

/// And whoever makes an API token can use it at once, until it ends.
pub proof fn lemma_api_tokens_work(
    before: Accounts,
    after: Accounts,
    user: &User,
    name: &str,
    lifetime_days: Option<u32>,
    now: i64,
    listed: ApiToken,
    token: String,
    later: i64,
)
    requires
        Accounts::new_api_token_does(
            &before,
            &after,
            user,
            name,
            lifetime_days,
            now,
            Ok((listed, token)),
        ),
        at(before.users@, user.id) >= 0,
        !before.users@[at(before.users@, user.id)].disabled,
        token_end(lifetime_days, now) matches Some(end) ==> later < end,
    ensures
        ({
            let i = token_at(after.tokens@, after.users@, hash_of(token@), later);
            &&& 0 <= i < after.tokens@.len()
            &&& after.tokens@[i].user == user.id
        }),
{
}

/// A token as the server makes them can be hashed.
pub proof fn lemma_short_fits(token: Seq<char>)
    requires
        token.len() <= 100,
    ensures
        fits(token),
    decreases token.len(),
{
    lemma_utf8_short(token);
}

proof fn lemma_utf8_short(s: Seq<char>)
    ensures
        encode_utf8(s).len() <= 4 * s.len(),
    decreases s.len(),
{
    if s.len() > 0 {
        lemma_utf8_short(s.drop_first());
    }
}

// --- What signing in comes to -----------------------------------------------------------------

/// Only who knows the password signs in: there is an account of that name,
/// whatever its case, that the password is the one of; it is not disabled; and
/// the session is that account's, for twelve hours.
pub proof fn lemma_only_the_right_password_signs_in(
    before: Accounts,
    after: Accounts,
    name: &str,
    password: &str,
    code: Option<&str>,
    from: Ip,
    now: i64,
    clock: u64,
    token: String,
    user: User,
)
    requires
        Accounts::sign_in_does(
            &before,
            &after,
            name,
            password,
            code,
            from,
            now,
            clock,
            Ok((token, user)),
        ),
    ensures
        exists|i: int|
            {
                &&& 0 <= i < before.users@.len()
                &&& same_but_case((#[trigger] before.users@[i]).name@, name@)
                &&& password_matches(password@, before.users@[i].password_hash@)
                &&& !before.users@[i].disabled
                &&& user.id == before.users@[i].id
            },
        after.logins@.len() == before.logins@.len() + 1,
        ({
            let login = after.logins@[before.logins@.len() as int];
            &&& login.user == user.id
            &&& login.token_hash@ == sha256_of(encode_utf8(token@))
            &&& login.created_at == now && login.expires_at == now + 12 * 60 * 60
        }),
{
    lemma_at_name(before.users@, name@);
    assert(same_but_case(before.users@[at_name(before.users@, name@)].name@, name@));
}

/// Whoever has turned codes on signs in only with one: it is right for their
/// secret now, and of a later step than the last that was used. From then on
/// its step is the last.
pub proof fn lemma_codes_are_asked_for(
    before: Accounts,
    after: Accounts,
    name: &str,
    password: &str,
    code: Option<&str>,
    from: Ip,
    now: i64,
    clock: u64,
    signed_in: (String, User),
    i: int,
)
    requires
        before.distinct(),
        Accounts::sign_in_does(
            &before,
            &after,
            name,
            password,
            code,
            from,
            now,
            clock,
            Ok(signed_in),
        ),
        0 <= i < before.users@.len(),
        before.users@[i].id == signed_in.1.id,
        before.users@[i].totp_secret is Some,
    ensures
        code matches Some(code) && {
            let secret = before.users@[i].totp_secret->Some_0;
            &&& totp::step_of(secret@, code@, now as u64) matches Some(step)
            &&& before.users@[i].totp_last_step matches Some(last) ==> step as i64 > last
            &&& after.users@[i].totp_last_step == Some(step as i64)
        },
{
    let j = at_name(before.users@, name@);
    lemma_at_name(before.users@, name@);
    lemma_at_own(before.users@, i);
    lemma_at_own(before.users@, j);
}

/// Whoever knows the password and has no codes turned on signs in, while they
/// have tries left; the server failing is all that keeps them out. Whoever has
/// codes turned on and gives none is asked for one.
pub proof fn lemma_the_right_password_signs_in(
    before: Accounts,
    after: Accounts,
    name: &str,
    password: &str,
    code: Option<&str>,
    from: Ip,
    now: i64,
    clock: u64,
    signed_in: Result<(String, User), Refused>,
    i: int,
)
    requires
        before.distinct(),
        Accounts::sign_in_does(&before, &after, name, password, code, from, now, clock, signed_in),
        0 <= i < before.users@.len(),
        before.users@[i].name@ == name@,
        password_matches(password@, before.users@[i].password_hash@),
        !before.users@[i].disabled,
        before.wrong(Key::Address(from)).len() < 10,
        before.wrong(Key::Name(lowercase_of(name@))).len() < 10,
    ensures
        before.users@[i].totp_secret is None ==> match signed_in {
            Ok((_, user)) => user.id == before.users@[i].id,
            Err(refused) => refused.is_internal(),
        },
        before.users@[i].totp_secret is Some && code is None ==> (signed_in matches Err(
            Refused::TotpNeeded,
        )) && after.logins@ == before.logins@,
{
    let j = at_name(before.users@, name@);
    lemma_at_name(before.users@, name@);
    assert(same_but_case(before.users@[i].name@, name@));
    if i < j {
        lemma_same_names(before.users@[i].name@, before.users@[j].name@);
    } else if j < i {
        lemma_same_names(before.users@[j].name@, before.users@[i].name@);
    }
    assert(i == j);
}

proof fn lemma_same_names(a: Seq<char>, b: Seq<char>)
    ensures
        same_but_case(a, b) ==> same_but_case(b, a),
{
    if same_but_case(a, b) {
        assert forall|i: int| 0 <= i < b.len() implies crate::text::ascii_lower(#[trigger] b[i])
            == crate::text::ascii_lower(a[i]) by {
            assert(crate::text::ascii_lower(a[i]) == crate::text::ascii_lower(b[i]));
        }
    }
}

/// A wrong password or code counts against the address that it came from and
/// against the name; nothing else is counted against anyone. Ten within a
/// quarter of an hour, the last of them still within it, and neither may try
/// again.
pub proof fn lemma_wrong_tries_are_counted(
    before: Accounts,
    after: Accounts,
    name: &str,
    password: &str,
    code: Option<&str>,
    from: Ip,
    now: i64,
    clock: u64,
    signed_in: Result<(String, User), Refused>,
    key: Key,
)
    requires
        Accounts::sign_in_does(&before, &after, name, password, code, from, now, clock, signed_in),
    ensures
        ({
            let mine = key == Key::Address(from) || key == Key::Name(lowercase_of(name@));
            &&& !mine ==> after.wrong(key).len() <= before.wrong(key).len()
            &&& signed_in is Ok ==> after.wrong(key).len() <= before.wrong(key).len()
            &&& mine && signed_in is Err && signed_in->Err_0 is WrongCode ==> after.wrong(key).len()
                >= 1 && after.wrong(key).last() == clock
            &&& mine && before.wrong(key).len() >= 10 && before.wrong(key).last() <= clock && clock
                - before.wrong(key).last() < 15 * 60 * 1_000_000 ==> (signed_in matches Err(
                Refused::TooManyAttempts,
            ))
        }),
{
    let held = kept(before.wrong(key), ATTEMPT_WINDOW, clock);
    assert(after.wrong(key).len() <= held.len() || after.wrong(key).last() == clock);
}

/// Whoever gives a wrong password for an account, or the name of none, is told
/// that and no more, and it is counted.
pub proof fn lemma_a_wrong_password_is_refused(
    before: Accounts,
    after: Accounts,
    name: &str,
    password: &str,
    code: Option<&str>,
    from: Ip,
    now: i64,
    clock: u64,
    signed_in: Result<(String, User), Refused>,
)
    requires
        Accounts::sign_in_does(&before, &after, name, password, code, from, now, clock, signed_in),
        forall|i: int|
            0 <= i < before.users@.len() && same_but_case(
                (#[trigger] before.users@[i]).name@,
                name@,
            ) ==> !password_matches(password@, before.users@[i].password_hash@),
    ensures
        signed_in matches Err(refused) && (refused is TooManyAttempts || refused
            is WrongCredentials),
        after.logins@ == before.logins@,
        after.users@ == before.users@,
        signed_in->Err_0 is WrongCredentials ==> {
            &&& after.wrong(Key::Address(from)).len() >= 1
            &&& after.wrong(Key::Address(from)).last() == clock
            &&& after.wrong(Key::Name(lowercase_of(name@))).len() >= 1
            &&& after.wrong(Key::Name(lowercase_of(name@))).last() == clock
        },
{
    lemma_at_name(before.users@, name@);
    let i = at_name(before.users@, name@);
    if i >= 0 {
        assert(same_but_case(before.users@[i].name@, name@));
    }
}

/// A session token stands for an account just when someone signed in with it
/// who is not disabled, and it has not ended.
pub proof fn lemma_sessions_stand_for_accounts(
    logins: Seq<Login>,
    users: Seq<Record>,
    hash: Seq<u8>,
    now: i64,
)
    ensures
        ({
            let i = session_at(logins, users, hash, now);
            &&& i >= 0 ==> {
                &&& i < users.len() && !users[i].disabled
                &&& exists|k: int|
                    0 <= k < logins.len() && (#[trigger] logins[k]).token_hash@ == hash
                        && logins[k].expires_at > now && logins[k].user == users[i].id
            }
            &&& i < 0 ==> forall|k: int, u: int|
                0 <= k < logins.len() && 0 <= u < users.len() && numbered(users) && (
                #[trigger] logins[k]).token_hash@ == hash && logins[k].user == (
                #[trigger] users[u]).id && !users[u].disabled ==> logins[k].expires_at <= now
        }),
    decreases logins.len(),
{
    if logins.len() > 0 {
        let less = logins.drop_last();
        let login = logins.last();
        lemma_at(users, login.user);
        lemma_sessions_stand_for_accounts(less, users, hash, now);
        assert(logins[logins.len() - 1] == login);
        assert(forall|k: int| 0 <= k < less.len() ==> less[k] == #[trigger] logins[k]);
        let i = session_at(logins, users, hash, now);
        if i >= 0 && !(login.token_hash@ == hash && login.expires_at > now && at(users, login.user)
            >= 0 && !users[at(users, login.user)].disabled) {
            let k = choose|k: int|
                0 <= k < less.len() && (#[trigger] less[k]).token_hash@ == hash
                    && less[k].expires_at > now && less[k].user == users[i].id;
            assert(logins[k].token_hash@ == hash);
        }
        if i < 0 {
            assert forall|k: int, u: int|
                0 <= k < logins.len() && 0 <= u < users.len() && numbered(users) && (
                #[trigger] logins[k]).token_hash@ == hash && logins[k].user == (
                #[trigger] users[u]).id && !users[u].disabled implies logins[k].expires_at
                <= now by {
                if k == logins.len() - 1 {
                    lemma_at_own(users, u);
                } else {
                    assert(less[k] == logins[k]);
                }
            }
        }
    }
}

/// An API token stands for its owner's account just when it has not ended and
/// they are not disabled.
pub proof fn lemma_api_tokens_stand_for_accounts(
    tokens: Seq<TokenRecord>,
    users: Seq<Record>,
    hash: Seq<u8>,
    now: i64,
)
    ensures
        ({
            let i = token_at(tokens, users, hash, now);
            &&& i >= 0 ==> {
                &&& i < tokens.len() && tokens[i].token_hash@ == hash
                &&& tokens[i].expires_at matches Some(end) ==> now < end
                &&& exists|u: int|
                    0 <= u < users.len() && (#[trigger] users[u]).id == tokens[i].user
                        && !users[u].disabled
            }
            &&& i < 0 ==> forall|k: int, u: int|
                0 <= k < tokens.len() && 0 <= u < users.len() && numbered(users) && (
                #[trigger] tokens[k]).token_hash@ == hash && tokens[k].user == (
                #[trigger] users[u]).id && !users[u].disabled ==> (tokens[k].expires_at matches Some(
                    end,
                ) && end <= now)
        }),
    decreases tokens.len(),
{
    if tokens.len() > 0 {
        let less = tokens.drop_last();
        let token = tokens.last();
        lemma_at(users, token.user);
        lemma_api_tokens_stand_for_accounts(less, users, hash, now);
        assert(tokens[tokens.len() - 1] == token);
        assert(forall|k: int| 0 <= k < less.len() ==> less[k] == #[trigger] tokens[k]);
        let i = token_at(tokens, users, hash, now);
        if i == tokens.len() - 1 {
            assert(users[at(users, token.user)].id == token.user);
        }
        if i < 0 {
            assert forall|k: int, u: int|
                0 <= k < tokens.len() && 0 <= u < users.len() && numbered(users) && (
                #[trigger] tokens[k]).token_hash@ == hash && tokens[k].user == (
                #[trigger] users[u]).id && !users[u].disabled implies (
            tokens[k].expires_at matches Some(end) && end <= now) by {
                if k == tokens.len() - 1 {
                    lemma_at_own(users, u);
                } else {
                    assert(less[k] == tokens[k]);
                }
            }
        }
    }
}

/// Whoever uses an API token is its owner, and nothing changes by it but that
/// the token is noted as used.
pub proof fn lemma_an_api_token_is_its_owners(
    before: Accounts,
    after: Accounts,
    token: &str,
    now: i64,
    user: User,
    i: int,
)
    requires
        Accounts::api_user_does(&before, &after, token, now, Some(user)),
        0 <= i < before.tokens@.len(),
    ensures
        exists|k: int|
            {
                &&& 0 <= k < before.tokens@.len()
                &&& (#[trigger] before.tokens@[k]).token_hash@ == sha256_of(encode_utf8(token@))
                &&& before.tokens@[k].user == user.id
                &&& before.tokens@[k].expires_at matches Some(end) ==> now < end
            },
        !user.disabled,
        after.tokens@.len() == before.tokens@.len(),
        after.tokens@[i].user == before.tokens@[i].user,
        after.tokens@[i].token_hash@ == before.tokens@[i].token_hash@,
        after.tokens@[i].expires_at == before.tokens@[i].expires_at,
        before.tokens@[i].token_hash@ == sha256_of(encode_utf8(token@))
            ==> after.tokens@[i].last_used_at == Some(now),
        before.tokens@[i].token_hash@ != sha256_of(encode_utf8(token@)) ==> after.tokens@[i]
            == before.tokens@[i],
{
    let hash = hash_of(token@);
    lemma_api_tokens_stand_for_accounts(before.tokens@, before.users@, hash, now);
    let k = token_at(before.tokens@, before.users@, hash, now);
    lemma_token_owner(before.tokens@, before.users@, hash, now);
    lemma_at(before.users@, before.tokens@[k].user);
    assert(before.tokens@[k].token_hash@ == hash);
}

proof fn lemma_token_owner(tokens: Seq<TokenRecord>, users: Seq<Record>, hash: Seq<u8>, now: i64)
    ensures
        token_at(tokens, users, hash, now) >= 0 ==> ({
            let owner = at(users, tokens[token_at(tokens, users, hash, now)].user);
            owner >= 0 && !users[owner].disabled
        }),
    decreases tokens.len(),
{
    if tokens.len() > 0 {
        let less = tokens.drop_last();
        lemma_token_owner(less, users, hash, now);
        lemma_api_tokens_stand_for_accounts(less, users, hash, now);
        let i = token_at(less, users, hash, now);
        if i >= 0 {
            assert(less[i] == tokens[i]);
        }
    }
}

// --- What becomes of accounts ---------------------------------------------------------------------

/// The first administrator is made once: by someone with a setup token that
/// has not ended, while there is no account. There is one then, which can
/// administer, and nobody is made that way any more.
pub proof fn lemma_setup_works_once(
    before: Accounts,
    after: Accounts,
    token: &str,
    name: &str,
    password: &str,
    now: i64,
    user: User,
    again: Accounts,
    other: &str,
    other_name: &str,
    other_password: &str,
    later: i64,
    made: Result<User, Refused>,
)
    requires
        Accounts::setup_does(&before, &after, token, name, password, now, Ok(user)),
        Accounts::setup_does(&after, &again, other, other_name, other_password, later, made),
    ensures
        before.users@.len() == 0,
        exists|i: int|
            0 <= i < before.setup_tokens@.len() && (#[trigger] before.setup_tokens@[i]).token_hash@
                == sha256_of(encode_utf8(token@)) && before.setup_tokens@[i].expires_at > now,
        after.users@.len() == 1,
        after.users@[0].name@ == name@ && after.users@[0].admin && !after.users@[0].disabled,
        password_matches(password@, after.users@[0].password_hash@),
        password@.len() >= 10,
        made is Err,
        again.users@ == after.users@,
{
}

/// A name is 1 to 64 characters, none of them a control character, and has no
/// space around it.
pub proof fn lemma_valid_names(name: Seq<char>)
    ensures
        valid_name(name) ==> 1 <= name.len() <= 64,
        valid_name(name) ==> forall|i: int|
            0 <= i < name.len() ==> (#[trigger] name[i]) > '\u{1F}' && !('\u{7F}' <= name[i]
                <= '\u{9F}'),
        valid_name(name) ==> name[0] != ' ' && name[name.len() - 1] != ' ',
        1 <= name.len() <= 64 && (forall|i: int|
            0 <= i < name.len() ==> '!' <= (#[trigger] name[i]) <= '~') ==> valid_name(name),
{
    if valid_name(name) {
        lemma_trimmed_ends(name);
    }
    if 1 <= name.len() <= 64 && (forall|i: int|
        0 <= i < name.len() ==> '!' <= (#[trigger] name[i]) <= '~') {
        assert('!' <= name[0] <= '~' && '!' <= name[name.len() - 1] <= '~');
        lemma_trimmed_fixed(name);
    }
}

/// Some account can administer just when one is an administrator and not
/// disabled.
pub proof fn lemma_someone_can_administer(users: Seq<Record>)
    ensures
        admins(users) >= 1 <==> exists|i: int|
            0 <= i < users.len() && (#[trigger] users[i]).admin && !users[i].disabled,
        admins(users) >= 2 <==> exists|i: int, j: int|
            0 <= i < j < users.len() && (#[trigger] users[i]).admin && !users[i].disabled && (
            #[trigger] users[j]).admin && !users[j].disabled,
    decreases users.len(),
{
    if users.len() > 0 {
        let less = users.drop_last();
        lemma_someone_can_administer(less);
        let n = users.len() - 1;
        assert(forall|k: int| 0 <= k < n ==> less[k] == #[trigger] users[k]);
        if admins(less) >= 1 {
            let i = choose|i: int| 0 <= i < less.len() && (#[trigger] less[i]).admin && !less[i].disabled;
            assert(users[i].admin && !users[i].disabled);
            if active_admin(users.last()) {
                assert(users[n].admin);
            }
        }
        if admins(less) >= 2 {
            let (i, j) = choose|i: int, j: int|
                0 <= i < j < less.len() && (#[trigger] less[i]).admin && !less[i].disabled && (
                #[trigger] less[j]).admin && !less[j].disabled;
            assert(users[i].admin && users[j].admin);
        }
        if active_admin(users.last()) {
            assert(users[n].admin && !users[n].disabled);
        }
        if exists|i: int| 0 <= i < users.len() && (#[trigger] users[i]).admin && !users[i].disabled {
            let i = choose|i: int|
                0 <= i < users.len() && (#[trigger] users[i]).admin && !users[i].disabled;
            if i < n {
                assert(less[i].admin);
            }
        }
        if exists|i: int, j: int|
            0 <= i < j < users.len() && (#[trigger] users[i]).admin && !users[i].disabled && (
            #[trigger] users[j]).admin && !users[j].disabled {
            let (i, j) = choose|i: int, j: int|
                0 <= i < j < users.len() && (#[trigger] users[i]).admin && !users[i].disabled && (
                #[trigger] users[j]).admin && !users[j].disabled;
            assert(less[i].admin && !less[i].disabled);
            if j < n {
                assert(less[j].admin);
            }
        }
    }
}

/// Someone is always left to administer: of accounts that can, the last is
/// neither demoted, disabled nor deleted.
pub proof fn lemma_someone_is_left_to_administer(
    before: Accounts,
    after: Accounts,
    id: i64,
    admin: Option<bool>,
    disabled: Option<bool>,
    changed: Result<User, Refused>,
    deleted: Result<(), Refused>,
)
    requires
        before.distinct(),
        exists|i: int|
            0 <= i < before.users@.len() && (#[trigger] before.users@[i]).admin
                && !before.users@[i].disabled,
        Accounts::update_user_does(&before, &after, id, admin, disabled, changed)
            || Accounts::delete_user_does(&before, &after, id, deleted),
    ensures
        exists|i: int|
            0 <= i < after.users@.len() && (#[trigger] after.users@[i]).admin
                && !after.users@[i].disabled,
{
    lemma_someone_can_administer(before.users@);
    lemma_someone_can_administer(after.users@);
}

/// Changing an account's standing changes that account's, as asked, where
/// another account can administer. Whoever is disabled is signed out.
pub proof fn lemma_standings_change(
    before: Accounts,
    after: Accounts,
    id: i64,
    admin: Option<bool>,
    disabled: Option<bool>,
    changed: Result<User, Refused>,
    i: int,
    other: int,
    login: Login,
)
    requires
        before.distinct(),
        Accounts::update_user_does(&before, &after, id, admin, disabled, changed),
        0 <= i < before.users@.len() && 0 <= other < before.users@.len() && i != other,
        before.users@[i].id == id,
        before.users@[other].admin && !before.users@[other].disabled,
    ensures
        changed is Ok,
        after.users@.len() == before.users@.len(),
        after.users@[i].id == id && after.users@[i].name == before.users@[i].name,
        after.users@[i].password_hash == before.users@[i].password_hash,
        after.users@[i].admin == (match admin {
            Some(admin) => admin,
            None => before.users@[i].admin,
        }),
        after.users@[i].disabled == (match disabled {
            Some(disabled) => disabled,
            None => before.users@[i].disabled,
        }),
        after.users@[other] == before.users@[other],
        after.logins@.contains(login) <==> before.logins@.contains(login) && !(disabled == Some(true)
            && login.user == id),
{
    lemma_at_own(before.users@, i);
    lemma_someone_can_administer(before.users@);
    if active_admin(before.users@[i]) {
        if i < other {
            assert(before.users@[i].admin && before.users@[other].admin);
        } else {
            assert(before.users@[other].admin && before.users@[i].admin);
        }
    }
    lemma_left(before.logins@, logins_of_others(id), login);
}

/// A deleted account is gone, with who is signed in to it and its tokens, and
/// nothing of another's.
pub proof fn lemma_a_deleted_account_is_gone(
    before: Accounts,
    after: Accounts,
    id: i64,
    user: Record,
    login: Login,
    token: TokenRecord,
)
    requires
        Accounts::delete_user_does(&before, &after, id, Ok(())),
    ensures
        after.users@.contains(user) <==> before.users@.contains(user) && user.id != id,
        after.logins@.contains(login) <==> before.logins@.contains(login) && login.user != id,
        after.tokens@.contains(token) <==> before.tokens@.contains(token) && token.user != id,
{
    lemma_left(before.users@, users_but(id), user);
    lemma_left(before.logins@, logins_of_others(id), login);
    lemma_left(before.tokens@, tokens_of_others(id), token);
}

/// A password is changed by who knows the old one, to one of ten characters
/// or more. The new one is the account's then, and whoever was signed in to it
/// is not any more; others are.
pub proof fn lemma_a_changed_password_signs_everyone_out(
    before: Accounts,
    after: Accounts,
    user: &User,
    current: &str,
    new: &str,
    i: int,
    login: Login,
)
    requires
        numbered(before.users@),
        Accounts::change_password_does(&before, &after, user, current, new, Ok(())),
        0 <= i < before.users@.len() && before.users@[i].id == user.id,
    ensures
        password_matches(current@, before.users@[i].password_hash@),
        password_matches(new@, after.users@[i].password_hash@),
        new@.len() >= 10,
        forall|j: int|
            0 <= j < before.users@.len() && j != i ==> #[trigger] after.users@[j]
                == before.users@[j],
        after.logins@.contains(login) <==> before.logins@.contains(login) && login.user != user.id,
{
    lemma_at_own(before.users@, i);
    lemma_left(before.logins@, logins_of_others(user.id), login);
}

/// A user's token is deleted by them and by nobody else, and only it.
pub proof fn lemma_a_deleted_token_is_gone(
    before: Accounts,
    after: Accounts,
    user: &User,
    id: i64,
    deleted: Result<(), Refused>,
    token: TokenRecord,
)
    requires
        Accounts::delete_api_token_does(&before, &after, user, id, deleted),
    ensures
        after.tokens@.contains(token) <==> before.tokens@.contains(token) && !(token.id == id
            && token.user == user.id),
        before.tokens@.contains(token) && token.id == id && token.user == user.id ==> deleted is Ok,
{
    lemma_left(before.tokens@, tokens_but(id, user.id), token);
    if before.tokens@.contains(token) {
        let i = choose|i: int| 0 <= i < before.tokens@.len() && before.tokens@[i] == token;
        assert(before.tokens@[i].id == token.id);
    }
}

/// Codes are in force once one was right for the secret that was drawn, and
/// that one is used then. They are given up with a right code only.
pub proof fn lemma_codes_are_confirmed_and_given_up(
    before: Accounts,
    after: Accounts,
    user: &User,
    code: &str,
    now: i64,
    i: int,
)
    requires
        numbered(before.users@),
        0 <= i < before.users@.len() && before.users@[i].id == user.id,
    ensures
        Accounts::totp_confirm_does(&before, &after, user, code, now, Ok(())) ==> {
            &&& before.users@[i].totp_pending matches Some(secret)
            &&& totp::step_of(secret@, code@, now as u64) matches Some(step)
            &&& after.users@[i].totp_secret == before.users@[i].totp_pending
            &&& after.users@[i].totp_pending is None
            &&& after.users@[i].totp_last_step == Some(step as i64)
        },
        Accounts::totp_disable_does(&before, &after, user, code, now, Ok(())) ==> {
            &&& before.users@[i].totp_secret matches Some(secret)
            &&& totp::step_of(secret@, code@, now as u64) is Some
            &&& after.users@[i].totp_secret is None
        },
{
    lemma_at_own(before.users@, i);
}

/// An API token ends so many whole days after it is made, or never.
pub proof fn lemma_tokens_end_after_their_days(days: u32, now: i64)
    ensures
        token_end(Some(days), now) == Some(now + days * 24 * 3600),
        token_end(None, now) is None,
{
}

/// A password has ten characters at least: one that is shorter makes no account,
/// and whoever is made has the name, the password and the standing asked for.
pub proof fn lemma_accounts_are_made_as_asked(
    before: &Accounts,
    after: &Accounts,
    name: &str,
    password: &str,
    admin: bool,
    now: i64,
    made: Result<User, Refused>,
)
    requires
        Accounts::create_user_does(before, after, name, password, admin, now, made),
    ensures
        password@.len() < 10 ==> made is Err,
        name@.len() == 0 || name@.len() > 64 ==> made is Err,
        made is Err ==> after.users == before.users,
        made matches Ok(user) ==> {
            let record = after.users@[after.users@.len() - 1];
            &&& after.users@.len() == before.users@.len() + 1
            &&& record.id == user.id && record.name@ == name@ && record.admin == admin
            &&& !record.disabled
            &&& password_matches(password@, record.password_hash@)
        },
{
}

/// When a token is used that is noted of it, and nothing else of it or of any
/// other.
pub proof fn lemma_use_is_noted(tokens: Seq<TokenRecord>, hash: Seq<u8>, now: i64, i: int)
    requires
        0 <= i < tokens.len(),
    ensures
        noted(tokens, hash, now).len() == tokens.len(),
        tokens[i].token_hash@ == hash ==> noted(tokens, hash, now)[i].last_used_at == Some(now),
        tokens[i].token_hash@ != hash ==> noted(tokens, hash, now)[i] == tokens[i],
        noted(tokens, hash, now)[i].token_hash == tokens[i].token_hash,
        noted(tokens, hash, now)[i].user == tokens[i].user,
        noted(tokens, hash, now)[i].id == tokens[i].id,
        noted(tokens, hash, now)[i].expires_at == tokens[i].expires_at,
{
}

/// A link for the first administrator was made: this token is the only one that
/// opens it.
pub open spec fn opens_setup(tokens: Seq<SetupToken>, token: Seq<char>, now: i64) -> bool {
    &&& tokens.len() == 1
    &&& tokens[0].token_hash@ == hash_of(token)
    &&& tokens[0].expires_at == now + SETUP_LIFETIME
}

/// A link for the first administrator is good for a day, and makes every other
/// void.
pub proof fn lemma_setup_links_last_a_day(
    tokens: Seq<SetupToken>,
    token: Seq<char>,
    now: i64,
    i: int,
)
    requires
        opens_setup(tokens, token, now),
        0 <= i < tokens.len(),
    ensures
        tokens[i].expires_at - now == 24 * 3600,
        tokens[i].token_hash@ == sha256_of(encode_utf8(token)),
        tokens.len() == 1,
{
}

}
