use snmp::params::{new_params_v2c, new_params_v3, ErrorKind};
use snmp::snmp::{AuthProtocol, PrivacyProtocol, SNMPVersion};

// V2 tests
#[test]
fn test_v2_config_get_host() {
    let v2 = new_params_v2c("test", "admin", "community");
    assert_eq!(v2.get_host(), "test");
}

#[test]
fn test_v2_config_get_username() {
    let v2 = new_params_v2c("test", "admin", "community");
    assert_eq!(v2.get_username(), "admin");
}

#[test]
fn test_v2_config_get_community() {
    let v2 = new_params_v2c("test", "admin", "community");

    let result = v2.get_community();
    assert!(result.is_ok());
    assert_eq!(result.unwrap(), "community");
}

#[test]
fn test_v2_config_get_auth_password() {
    let v2 = new_params_v2c("test", "admin", "community");

    let result = v2.get_auth_password();
    assert!(result.is_err());
    let err = result.unwrap_err();
    assert_eq!(err.kind(), ErrorKind::Other);
    assert_eq!(err.to_string(), "Wrong version");
}

#[test]
fn test_v2_config_get_auth_protocol() {
    let v2 = new_params_v2c("test", "admin", "community");

    let result = v2.get_auth_protocol();
    assert!(result.is_err());
    let err = result.unwrap_err();
    assert_eq!(err.kind(), ErrorKind::Other);
    assert_eq!(err.to_string(), "Wrong version");
}

#[test]
fn test_v2_config_get_privacy_password() {
    let v2 = new_params_v2c("test", "admin", "community");

    let result = v2.get_privacy_password();
    assert!(result.is_err());
    let err = result.unwrap_err();
    assert_eq!(err.kind(), ErrorKind::Other);
    assert_eq!(err.to_string(), "Wrong version");
}

#[test]
fn test_v2_config_get_privacy_protocol() {
    let v2 = new_params_v2c("test", "admin", "community");

    let result = v2.get_privacy_protocol();
    assert!(result.is_err());
    let err = result.unwrap_err();
    assert_eq!(err.kind(), ErrorKind::Other);
    assert_eq!(err.to_string(), "Wrong version");
}

// V3 tests
#[test]
fn test_v3_config_get_host() {
    let v3 = new_params_v3("test", "admin", AuthProtocol::SHA, "auth_password", PrivacyProtocol::AES, "privacy_password");
    assert_eq!(v3.get_host(), "test");
}

#[test]
fn test_v3_config_get_username() {
    let v3 = new_params_v3("test", "admin", AuthProtocol::SHA, "auth_password", PrivacyProtocol::AES, "privacy_password");
    assert_eq!(v3.get_username(), "admin");
}

#[test]
fn test_v3_config_get_community() {
    let v3 = new_params_v3("test", "admin", AuthProtocol::SHA, "auth_password", PrivacyProtocol::AES, "privacy_password");

    let result = v3.get_community();
    assert!(result.is_err());
    let err = result.unwrap_err();
    assert_eq!(err.kind(), ErrorKind::Other);
    assert_eq!(err.to_string(), "Wrong version");
}

#[test]
fn test_v3_config_get_auth_password() {
    let v3 = new_params_v3("test", "admin", AuthProtocol::SHA, "auth_password", PrivacyProtocol::AES, "privacy_password");

    let result = v3.get_auth_password();
    assert!(result.is_ok());
    assert_eq!(result.unwrap(), "auth_password");
}

#[test]
fn test_v3_config_get_auth_protocol() {
    let v3 = new_params_v3("test", "admin", AuthProtocol::SHA, "auth_password", PrivacyProtocol::AES, "privacy_password");

    let result = v3.get_auth_protocol();
    assert!(result.is_ok());
    assert_eq!(result.unwrap(), AuthProtocol::SHA);
}

#[test]
fn test_v3_config_get_privacy_password() {
    let v3 = new_params_v3("test", "admin", AuthProtocol::SHA, "auth_password", PrivacyProtocol::AES, "privacy_password");

    let result = v3.get_privacy_password();
    assert!(result.is_ok());
    assert_eq!(result.unwrap(), "privacy_password");
}

#[test]
fn test_v3_config_get_privacy_protocol() {
    let v3 = new_params_v3("test", "admin", AuthProtocol::SHA, "auth_password", PrivacyProtocol::AES, "privacy_password");

    let result = v3.get_privacy_protocol();
    assert!(result.is_ok());
    assert_eq!(result.unwrap(), PrivacyProtocol::AES);
}

#[test]
fn test_create_snmpv3_config() {
    let v3 = new_params_v3("test", "admin", AuthProtocol::SHA, "auth_password", PrivacyProtocol::AES, "privacy_password");
    assert_eq!(v3.get_host(), "test");
    assert_eq!(v3.get_username(), "admin");
    assert_eq!(v3.get_auth_protocol().unwrap(), AuthProtocol::SHA);
    assert_eq!(v3.get_auth_password().unwrap(), "auth_password");
    assert_eq!(v3.get_privacy_protocol().unwrap(), PrivacyProtocol::AES);
    assert_eq!(v3.get_privacy_password().unwrap(), "privacy_password");
}

#[test]
fn params_report_their_version() {
    let v2 = new_params_v2c("test", "admin", "community");
    assert_eq!(v2.get_version(), SNMPVersion::V2c);
    let v3 = new_params_v3("h", "u", AuthProtocol::MD5, "a", PrivacyProtocol::DES, "p");
    assert_eq!(v3.get_version(), SNMPVersion::V3);
    assert_eq!(v3.get_auth_protocol().unwrap(), AuthProtocol::MD5);
    assert_eq!(v3.get_privacy_protocol().unwrap(), PrivacyProtocol::DES);
}
