use vstd::prelude::*;
use crate::registry::ClientId;

verus! {

/// A client to be enrolled: its name and one-time authorization code.
pub struct NewClient {
    pub name: String,
    pub auth_key: String,
    pub status: String,
    pub revoked: bool,
}

impl NewClient {
    /// A client that holds an authorization code and has not enrolled yet.
    pub fn new(name: &str, auth: &str) -> (r: NewClient)
        ensures
            r.name@ == name@,
            r.auth_key@ == auth@,
            r.status@ == "Authorized"@,
            !r.revoked,
    {
        NewClient {
            name: name.to_owned(),
            auth_key: auth.to_owned(),
            status: "Authorized".to_owned(),
            revoked: false,
        }
    }
}

/// A log line sent by a connected client, to be stored.
pub struct NewClientLog {
    pub client_id: ClientId,
    pub log_message: String,
}

/// Outcome of a request to open a client's persistent connection.
#[derive(Clone, Copy, PartialEq, Eq, Structural)]
pub enum UpgradeOutcome {
    /// The request carries no access key.
    MissingKey,
    /// No client holds the access key.
    Unauthorized,
    /// The connection is opened for this client.
    Accept(ClientId),
}

/// Decides a connection request from whether it carries an access key and which client, if
/// any, the credential store found for it. A connection handle exists only on acceptance.
pub fn upgrade_outcome(has_key: bool, found: Option<ClientId>) -> (r: UpgradeOutcome)
    ensures
        !has_key ==> r == UpgradeOutcome::MissingKey,
        has_key && found is None ==> r == UpgradeOutcome::Unauthorized,
        has_key && found is Some ==> r == UpgradeOutcome::Accept(found->0),
{
    if !has_key {
        UpgradeOutcome::MissingKey
    } else {
        match found {
            Some(id) => UpgradeOutcome::Accept(id),
            None => UpgradeOutcome::Unauthorized,
        }
    }
}

impl UpgradeOutcome {
    /// Status code of the answer to a refused request; 101 (switching protocols) on
    /// acceptance.
    pub fn status_code(&self) -> (r: u16)
        ensures
            *self == UpgradeOutcome::MissingKey ==> r == 400,
            *self == UpgradeOutcome::Unauthorized ==> r == 401,
            *self is Accept ==> r == 101,
    {
        match self {
            UpgradeOutcome::MissingKey => 400,
            UpgradeOutcome::Unauthorized => 401,
            UpgradeOutcome::Accept(_) => 101,
        }
    }

    /// Text of the answer to a refused request; empty on acceptance.
    pub fn message(&self) -> (r: &'static str)
        ensures
            *self == UpgradeOutcome::MissingKey ==> r@ == "Missing API key in request!"@,
            *self == UpgradeOutcome::Unauthorized ==> r@ == "No access authorized with given api key!"@,
            *self is Accept ==> r@ == ""@,
    {
        match self {
            UpgradeOutcome::MissingKey => "Missing API key in request!",
            UpgradeOutcome::Unauthorized => "No access authorized with given api key!",
            UpgradeOutcome::Accept(_) => "",
        }
    }
}

} // verus!
