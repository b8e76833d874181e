use vstd::prelude::*;

use crate::params::Params;

verus! {

/// The protocol version a client speaks.
#[derive(Clone, Copy, Debug, PartialEq, Eq, Structural)]
pub enum SNMPVersion {
    V2c,
    V3,
}

/// The digest used for v3 message authentication.
#[derive(Clone, Copy, Debug, PartialEq, Eq, Structural)]
pub enum AuthProtocol {
    MD5,
    SHA,
}

/// The cipher used for v3 message privacy.
#[derive(Clone, Copy, Debug, PartialEq, Eq, Structural)]
pub enum PrivacyProtocol {
    DES,
    AES,
}

/// A client that speaks the community-based version 2c.
pub struct SNMPClientV2<'a> {
    pub params: &'a Params,
}

impl<'a> SNMPClientV2<'a> {
    pub fn new(params: &'a Params) -> (r: Self)
        ensures
            r.params == params,
    {
        Self { params }
    }
}

/// A client that speaks version 3 with the user-based security model.
pub struct SNMPClientV3<'a> {
    pub params: &'a Params,
}

impl<'a> SNMPClientV3<'a> {
    pub fn new(params: &'a Params) -> (r: Self)
        ensures
            r.params == params,
    {
        Self { params }
    }
}

/// One call surface over both protocol versions.
pub enum SNMPClient<'a> {
    V2(SNMPClientV2<'a>),
    V3(SNMPClientV3<'a>),
}

/// Picks the client that matches the version of the configuration.
pub fn new_client<'a>(params: &'a Params) -> (r: SNMPClient<'a>)
    ensures
        params@.version == SNMPVersion::V2c <==> r is V2,
        params@.version == SNMPVersion::V3 <==> r is V3,
        r matches SNMPClient::V2(c) ==> c.params == params,
        r matches SNMPClient::V3(c) ==> c.params == params,
{
    match params.get_version() {
        SNMPVersion::V2c => SNMPClient::V2(SNMPClientV2::new(params)),
        SNMPVersion::V3 => SNMPClient::V3(SNMPClientV3::new(params)),
    }
}

} // verus!
