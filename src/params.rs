use vstd::prelude::*;

use crate::snmp::{AuthProtocol, PrivacyProtocol, SNMPVersion};

verus! {

/// The category of a configuration error.
#[derive(Clone, Copy, Debug, PartialEq, Eq, Structural)]
pub enum ErrorKind {
    Other,
}

/// A configuration accessor was called for the other protocol version.
#[derive(Clone, Copy, Debug, PartialEq, Eq, Structural)]
pub enum ParamsError {
    WrongVersion,
}

impl ParamsError {
    pub fn kind(&self) -> (r: ErrorKind)
        ensures
            r == ErrorKind::Other,
    {
        ErrorKind::Other
    }

    /// A message for the user.
    pub fn to_string(&self) -> (r: String)
        ensures
            r@ == "Wrong version"@,
    {
        "Wrong version".to_string()
    }
}

/// The abstract content of a client configuration.
pub struct ParamsView {
    pub host: Seq<char>,
    pub username: Seq<char>,
    pub auth_protocol: Option<AuthProtocol>,
    pub auth_password: Option<Seq<char>>,
    pub privacy_protocol: Option<PrivacyProtocol>,
    pub privacy_password: Option<Seq<char>>,
    pub community: Option<Seq<char>>,
    pub version: SNMPVersion,
}

/// The credentials and target of one client. A v3 configuration holds the
/// security settings and no community; a v2c one holds only the community.
pub struct Params {
    host: String,
    username: String,
    auth_protocol: Option<AuthProtocol>,
    auth_password: Option<String>,
    privacy_protocol: Option<PrivacyProtocol>,
    privacy_password: Option<String>,
    community: Option<String>,
    version: SNMPVersion,
}

pub open spec fn opt_str_view(o: Option<String>) -> Option<Seq<char>> {
    match o {
        Some(s) => Some(s@),
        None => None,
    }
}

impl View for Params {
    type V = ParamsView;

    closed spec fn view(&self) -> ParamsView {
        ParamsView {
            host: self.host@,
            username: self.username@,
            auth_protocol: self.auth_protocol,
            auth_password: opt_str_view(self.auth_password),
            privacy_protocol: self.privacy_protocol,
            privacy_password: opt_str_view(self.privacy_password),
            community: opt_str_view(self.community),
            version: self.version,
        }
    }
}

impl Params {
    #[verifier::type_invariant]
    closed spec fn inv(&self) -> bool {
        match self.version {
            SNMPVersion::V3 => {
                &&& self.auth_protocol is Some
                &&& self.auth_password is Some
                &&& self.privacy_protocol is Some
                &&& self.privacy_password is Some
            },
            SNMPVersion::V2c => self.community is Some,
        }
    }

    pub fn get_version(&self) -> (r: SNMPVersion)
        ensures
            r == self@.version,
    {
        self.version
    }

    pub fn get_host(&self) -> (r: &str)
        ensures
            r@ == self@.host,
    {
        self.host.as_str()
    }

    pub fn get_username(&self) -> (r: &str)
        ensures
            r@ == self@.username,
    {
        self.username.as_str()
    }

    pub fn get_auth_protocol(&self) -> (r: Result<AuthProtocol, ParamsError>)
        ensures
            self@.version == SNMPVersion::V2c ==> r == Err::<AuthProtocol, _>(
                ParamsError::WrongVersion,
            ),
            self@.version == SNMPVersion::V3 ==> self@.auth_protocol == Some(r->Ok_0) && r is Ok,
    {
        proof {
            use_type_invariant(self);
        }
        match (self.version, self.auth_protocol) {
            (SNMPVersion::V3, Some(p)) => Ok(p),
            _ => Err(ParamsError::WrongVersion),
        }
    }

    pub fn get_auth_password(&self) -> (r: Result<String, ParamsError>)
        ensures
            self@.version == SNMPVersion::V2c ==> r matches Err(ParamsError::WrongVersion),
            self@.version == SNMPVersion::V3 ==> r is Ok && self@.auth_password == Some(
                r->Ok_0@,
            ),
    {
        proof {
            use_type_invariant(self);
        }
        match (&self.auth_password, self.version) {
            (Some(p), SNMPVersion::V3) => Ok(p.clone()),
            _ => Err(ParamsError::WrongVersion),
        }
    }

    pub fn get_privacy_protocol(&self) -> (r: Result<PrivacyProtocol, ParamsError>)
        ensures
            self@.version == SNMPVersion::V2c ==> r matches Err(ParamsError::WrongVersion),
            self@.version == SNMPVersion::V3 ==> r is Ok && self@.privacy_protocol == Some(
                r->Ok_0,
            ),
    {
        proof {
            use_type_invariant(self);
        }
        match (self.version, self.privacy_protocol) {
            (SNMPVersion::V3, Some(p)) => Ok(p),
            _ => Err(ParamsError::WrongVersion),
        }
    }

    pub fn get_privacy_password(&self) -> (r: Result<String, ParamsError>)
        ensures
            self@.version == SNMPVersion::V2c ==> r matches Err(ParamsError::WrongVersion),
            self@.version == SNMPVersion::V3 ==> r is Ok && self@.privacy_password == Some(
                r->Ok_0@,
            ),
    {
        proof {
            use_type_invariant(self);
        }
        match (&self.privacy_password, self.version) {
            (Some(p), SNMPVersion::V3) => Ok(p.clone()),
            _ => Err(ParamsError::WrongVersion),
        }
    }

    pub fn get_community(&self) -> (r: Result<String, ParamsError>)
        ensures
            self@.version == SNMPVersion::V3 ==> r matches Err(ParamsError::WrongVersion),
            self@.version == SNMPVersion::V2c ==> r is Ok && self@.community == Some(r->Ok_0@),
    {
        proof {
            use_type_invariant(self);
        }
        match (&self.community, self.version) {
            (Some(c), SNMPVersion::V2c) => Ok(c.clone()),
            _ => Err(ParamsError::WrongVersion),
        }
    }
}

/// A v3 configuration: authentication and privacy settings, no community.
pub fn new_params_v3(
    host: &str,
    username: &str,
    auth_protocol: AuthProtocol,
    auth_password: &str,
    privacy_protocol: PrivacyProtocol,
    privacy_password: &str,
) -> (r: Params)
    ensures
        r@ == (ParamsView {
            host: host@,
            username: username@,
            auth_protocol: Some(auth_protocol),
            auth_password: Some(auth_password@),
            privacy_protocol: Some(privacy_protocol),
            privacy_password: Some(privacy_password@),
            community: None,
            version: SNMPVersion::V3,
        }),
{
    Params {
        host: host.to_string(),
        username: username.to_string(),
        auth_protocol: Some(auth_protocol),
        auth_password: Some(auth_password.to_string()),
        privacy_protocol: Some(privacy_protocol),
        privacy_password: Some(privacy_password.to_string()),
        community: None,
        version: SNMPVersion::V3,
    }
}

/// A v2c configuration: a community string, no security settings.
pub fn new_params_v2c(host: &str, username: &str, community: &str) -> (r: Params)
    ensures
        r@ == (ParamsView {
            host: host@,
            username: username@,
            auth_protocol: None,
            auth_password: None,
            privacy_protocol: None,
            privacy_password: None,
            community: Some(community@),
            version: SNMPVersion::V2c,
        }),
{
    Params {
        host: host.to_string(),
        username: username.to_string(),
        auth_protocol: None,
        auth_password: None,
        privacy_protocol: None,
        privacy_password: None,
        community: Some(community.to_string()),
        version: SNMPVersion::V2c,
    }
}

} // verus!
