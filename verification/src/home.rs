//! The home directory that the router keeps for each account, and what becomes of the
//! credentials in it.

use std::path::PathBuf;

use vstd::prelude::*;

use crate::paths::{account_dir_name, join, joined, router_account_dir_name};
use crate::text::{integer_value, parse_i64, signed_decimal, written_integer_is_read_back};

verus! {

/// A JSON value.
#[verifier::external_type_specification]
#[verifier::external_body]
pub struct ExJsonValue(serde_json::Value);

/// The JSON value that a text stands for.
pub uninterp spec fn json_parsed(s: Seq<char>) -> Option<serde_json::Value>;

/// The member of a JSON object with a name.
pub uninterp spec fn json_member(v: serde_json::Value, name: Seq<char>) -> Option<
    serde_json::Value,
>;

/// The number that a JSON value is, where it is an integer that fits.
pub uninterp spec fn json_integer(v: serde_json::Value) -> Option<i64>;

/// The text of a JSON string.
pub uninterp spec fn json_text(v: serde_json::Value) -> Option<Seq<char>>;

/// `serde_json::from_str`: the JSON value of a text, where it is JSON.
#[verifier::external_body]
fn parse_json(s: &str) -> (r: Option<serde_json::Value>)
    ensures
        r == json_parsed(s@),
{
    serde_json::from_str::<serde_json::Value>(s).ok()
}

/// `serde_json::Value::get` with a string: the member of an object.
#[verifier::external_body]
fn member<'a>(v: &'a serde_json::Value, name: &str) -> (r: Option<&'a serde_json::Value>)
    ensures
        match r {
            Some(m) => json_member(*v, name@) == Some(*m),
            None => json_member(*v, name@) is None,
        },
{
    v.get(name)
}

/// `serde_json::Value::as_i64`: the integer that a value is.
#[verifier::external_body]
fn integer_of(v: &serde_json::Value) -> (r: Option<i64>)
    ensures
        r == json_integer(*v),
{
    v.as_i64()
}

/// `serde_json::Value::as_str`: the text of a string.
#[verifier::external_body]
fn text_of_json(v: &serde_json::Value) -> (r: Option<&str>)
    ensures
        match r {
            Some(s) => json_text(*v) == Some(s@),
            None => json_text(*v) is None,
        },
{
    v.as_str()
}

/// The instant that an `expires_at` member stands for, given as an integer or as the text of
/// one.
pub open spec fn expiry_instant(integer: Option<i64>, text: Option<Seq<char>>) -> Option<int> {
    match integer {
        Some(n) => Some(n as int),
        None => match text {
            Some(s) => match integer_value(s) {
                Some(n) => if i64::MIN <= n <= i64::MAX {
                    Some(n)
                } else {
                    None
                },
                None => None,
            },
            None => None,
        },
    }
}

/// When the access that a credential file gives expires.
pub open spec fn expires_at(raw: Seq<char>) -> Option<int> {
    match json_parsed(raw) {
        Some(value) => match json_member(value, "expires_at"@) {
            Some(m) => expiry_instant(json_integer(m), json_text(m)),
            None => None,
        },
        None => None,
    }
}

/// The instant that an `expires_at` member stands for.
pub fn expiry_from(integer: Option<i64>, text: Option<&str>) -> (r: Option<i64>)
    ensures
        match expiry_instant(
            integer,
            match text {
                Some(s) => Some(s@),
                None => None,
            },
        ) {
            Some(n) => r matches Some(k) && k == n,
            None => r is None,
        },
{
    match integer {
        Some(n) => Some(n),
        None => match text {
            Some(s) => parse_i64(s),
            None => None,
        },
    }
}

/// When the access that a credential file gives expires.
pub fn credential_expiry(raw: &str) -> (r: Option<i64>)
    ensures
        match expires_at(raw@) {
            Some(n) => r matches Some(k) && k == n,
            None => r is None,
        },
{
    match parse_json(raw) {
        Some(value) => match member(&value, "expires_at") {
            Some(m) => expiry_from(integer_of(m), text_of_json(m)),
            None => None,
        },
        None => None,
    }
}

/// Whether the first of two instants is known to be later than the second.
pub open spec fn later(isolated: Option<int>, stored: Option<int>) -> bool {
    match (isolated, stored) {
        (Some(a), Some(b)) => a > b,
        _ => false,
    }
}

/// Whether the first of two instants is known to be later than the second.
pub fn is_later(isolated: Option<i64>, stored: Option<i64>) -> (r: bool)
    ensures
        r == later(
            match isolated {
                Some(n) => Some(n as int),
                None => None,
            },
            match stored {
                Some(n) => Some(n as int),
                None => None,
            },
        ),
{
    match (isolated, stored) {
        (Some(a), Some(b)) => a > b,
        _ => false,
    }
}

/// Whether the credentials in the account's home are known to be newer than the stored ones.
pub fn isolated_credentials_are_newer(isolated: &str, stored: &str) -> (r: bool)
    ensures
        r == later(expires_at(isolated@), expires_at(stored@)),
{
    is_later(credential_expiry(isolated), credential_expiry(stored))
}

/// Of two credentials at most one is newer than the other, none is newer than itself, and one
/// without a known expiry is never newer.
pub proof fn newer_credentials_are_ordered(a: Option<int>, b: Option<int>, c: Option<int>)
    ensures
        !later(a, a),
        later(a, b) ==> !later(b, a),
        later(a, b) && later(b, c) ==> later(a, c),
        a is None || b is None ==> !later(a, b),
{
}

/// What is done with the credentials when an account's home is made ready.
#[derive(Debug, Clone, Copy, PartialEq, Eq, Structural)]
pub enum CredentialPlan {
    /// The home's credentials go to the store.
    Absorb,
    /// The store has none: the home's credentials are recovered from what a crash left.
    Recover,
    /// The stored credentials go to the home.
    Install,
    /// There are none.
    Missing,
}

/// What is done with the credentials, given those in the home and those in the store.
pub open spec fn credential_choice(isolated: Option<Seq<char>>, stored: Option<Seq<char>>) ->
    CredentialPlan {
    match (isolated, stored) {
        (Some(mine), Some(theirs)) => if later(expires_at(mine), expires_at(theirs)) {
            CredentialPlan::Absorb
        } else {
            CredentialPlan::Install
        },
        (Some(_), None) => CredentialPlan::Recover,
        (None, Some(_)) => CredentialPlan::Install,
        (None, None) => CredentialPlan::Missing,
    }
}

/// Decides what is done with the credentials when an account's home is made ready.
pub fn credential_plan(isolated: Option<&str>, stored: Option<&str>) -> (r: CredentialPlan)
    ensures
        r == credential_choice(
            match isolated {
                Some(s) => Some(s@),
                None => None,
            },
            match stored {
                Some(s) => Some(s@),
                None => None,
            },
        ),
{
    match (isolated, stored) {
        (Some(mine), Some(theirs)) => if isolated_credentials_are_newer(mine, theirs) {
            CredentialPlan::Absorb
        } else {
            CredentialPlan::Install
        },
        (Some(_), None) => CredentialPlan::Recover,
        (None, Some(_)) => CredentialPlan::Install,
        (None, None) => CredentialPlan::Missing,
    }
}

/// Whether the credentials that Kimi Code left in the home go to the store: unless the store
/// has some that are not known to be older.
pub fn should_absorb(raw: &str, stored: Option<&str>) -> (r: bool)
    ensures
        r == match stored {
            Some(s) => later(expires_at(raw@), expires_at(s@)),
            None => true,
        },
        ({
            let plan = credential_choice(
                Some(raw@),
                match stored {
                    Some(s) => Some(s@),
                    None => None,
                },
            );
            r <==> plan == CredentialPlan::Absorb || plan == CredentialPlan::Recover
        }),
{
    match stored {
        Some(s) => isolated_credentials_are_newer(raw, s),
        None => true,
    }
}

/// The store is never given credentials that are older than its own, or of unknown age: it is
/// written only where it holds nothing, or something that expires earlier.
pub proof fn store_is_never_set_back(isolated: Option<Seq<char>>, stored: Seq<char>)
    requires
        credential_choice(isolated, Some(stored)) == CredentialPlan::Absorb
            || credential_choice(isolated, Some(stored)) == CredentialPlan::Recover,
    ensures
        isolated matches Some(mine) && expires_at(mine) matches Some(a) && expires_at(stored)
            matches Some(b) && a > b,
{
}

/// The home directory of an account.
#[derive(Debug)]
pub struct AccountHome {
    pub account_id: String,
    pub path: PathBuf,
    pub credential_file: PathBuf,
}

impl AccountHome {
    /// Where the home of an account lies under the router's directory. The path shows a
    /// digest of the account id only.
    pub fn locate(router_root: &PathBuf, account_id: &str) -> (r: AccountHome)
        ensures
            r.account_id@ == account_id@,
            r.path == joined(
                joined(joined(*router_root, "accounts"@), account_dir_name(account_id@)),
                "kimi-home"@,
            ),
            r.credential_file == joined(joined(r.path, "credentials"@), "kimi-code.json"@),
    {
        let name: String = router_account_dir_name(account_id);
        let accounts: PathBuf = join(router_root, "accounts");
        let path: PathBuf = join(&join(&accounts, name.as_str()), "kimi-home");
        let credential_file: PathBuf = join(&join(&path, "credentials"), "kimi-code.json");
        AccountHome { account_id: account_id.to_string(), path, credential_file }
    }

    /// The directory of the credentials.
    pub fn credential_dir(&self) -> (r: PathBuf)
        ensures
            r == joined(self.path, "credentials"@),
    {
        join(&self.path, "credentials")
    }

    /// The configuration of Kimi Code in this home.
    pub fn config_file(&self) -> (r: PathBuf)
        ensures
            r == joined(self.path, "config.toml"@),
    {
        join(&self.path, "config.toml")
    }

    /// The link to the sessions that the accounts share.
    pub fn session_link(&self) -> (r: PathBuf)
        ensures
            r == joined(self.path, "sessions"@),
    {
        join(&self.path, "sessions")
    }
}

/// What became of a try to delete a file.
#[derive(Debug, PartialEq, Eq)]
pub enum Deletion {
    Done,
    /// There was no such file.
    Absent,
    Failed(String),
}

/// What a purge of the credentials comes to: there are none left, or why there may be.
pub fn purge_verdict(deletion: Deletion) -> (r: Result<(), String>)
    ensures
        r == match deletion {
            Deletion::Failed(why) => Err::<(), String>(why),
            _ => Ok(()),
        },
{
    match deletion {
        Deletion::Failed(why) => Err(why),
        _ => Ok(()),
    }
}

/// What stands where the link to the shared sessions belongs.
#[derive(Debug, Clone, Copy, PartialEq, Eq, Structural)]
pub enum LinkState {
    Nothing,
    /// A link to the shared sessions.
    Right,
    /// A link to something else.
    Wrong,
    /// No link at all.
    Foreign,
}

/// What is done about the link to the shared sessions.
#[derive(Debug, Clone, Copy, PartialEq, Eq, Structural)]
pub enum LinkPlan {
    Create,
    Keep,
    /// Refused: the link leads elsewhere.
    RefuseTarget,
    /// Refused: what stands there is not the router's to remove.
    RefuseForeign,
}

/// Decides what is done about the link to the shared sessions. Nothing that is already there
/// is replaced.
pub fn link_plan(state: LinkState) -> (r: LinkPlan)
    ensures
        r == match state {
            LinkState::Nothing => LinkPlan::Create,
            LinkState::Right => LinkPlan::Keep,
            LinkState::Wrong => LinkPlan::RefuseTarget,
            LinkState::Foreign => LinkPlan::RefuseForeign,
        },
{
    match state {
        LinkState::Nothing => LinkPlan::Create,
        LinkState::Right => LinkPlan::Keep,
        LinkState::Wrong => LinkPlan::RefuseTarget,
        LinkState::Foreign => LinkPlan::RefuseForeign,
    }
}

/// An expiry given as a number is that number. One given as a text is the integer that it is the
/// text of, where that fits; any other text says nothing.
pub proof fn expiry_is_a_number_or_its_text(n: i64, text: Option<Seq<char>>, s: Seq<char>, k: int)
    ensures
        expiry_instant(Some(n), text) == Some(n as int),
        expiry_instant(None, None) is None,
        i64::MIN <= k <= i64::MAX ==> expiry_instant(None, Some(signed_decimal(k))) == Some(k),
        !(i64::MIN <= k <= i64::MAX) ==> expiry_instant(None, Some(signed_decimal(k))) is None,
        integer_value(s) is None ==> expiry_instant(None, Some(s)) is None,
{
    written_integer_is_read_back(k);
}

/// The expiry of credentials is that of their `expires_at` member, and not known where they are
/// no JSON or have no such member.
pub proof fn expiry_is_that_of_its_member(raw: Seq<char>, v: serde_json::Value, m: serde_json::Value)
    ensures
        json_parsed(raw) is None ==> expires_at(raw) is None,
        json_parsed(raw) == Some(v) && json_member(v, "expires_at"@) is None ==> expires_at(
            raw,
        ) is None,
        json_parsed(raw) == Some(v) && json_member(v, "expires_at"@) == Some(m) && (json_integer(m)
            matches Some(n)) ==> expires_at(raw) == Some(json_integer(m)->0 as int),
        json_parsed(raw) == Some(v) && json_member(v, "expires_at"@) == Some(m) && json_integer(
            m,
        ) is None && json_text(m) is None ==> expires_at(raw) is None,
{
}

/// Credentials are newer exactly where both expiries are known and theirs is the later one.
pub proof fn later_expiry_is_newer(a: int, b: int, other: Option<int>)
    ensures
        later(Some(a), Some(b)) <==> a > b,
        !later(None, other),
        !later(other, None),
{
}

/// The credentials of the home go to the store exactly where they expire later than the stored
/// ones. Else the stored ones go to the home; without any in the store those of the home are
/// recovered, and without any at all they are missing.
pub proof fn credentials_go_where_they_are_older(mine: Seq<char>, theirs: Seq<char>)
    ensures
        credential_choice(Some(mine), Some(theirs)) == CredentialPlan::Absorb <==> (expires_at(mine)
            matches Some(a) && expires_at(theirs) matches Some(b) && a > b),
        credential_choice(Some(mine), Some(theirs)) == CredentialPlan::Absorb || credential_choice(
            Some(mine),
            Some(theirs),
        ) == CredentialPlan::Install,
        credential_choice(None, Some(theirs)) == CredentialPlan::Install,
        credential_choice(Some(mine), None) == CredentialPlan::Recover,
        credential_choice(None, None) == CredentialPlan::Missing,
{
}

} // verus!
