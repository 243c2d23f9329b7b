use axis::errors::Error;
use axis::launcher::start;

#[test]
fn store_is_under_var() {
    assert_eq!(start("/etc/axis", "/var/lib/axis"), "/var/lib/axis/db");
    assert_eq!(start("etc", "var"), "var/db");
    assert_eq!(start("etc", "var/"), "var/db");
    assert_eq!(start("etc", "/"), "/db");
    assert_eq!(start("etc", ""), "db");
    assert_eq!(start("etc", "daten/größe"), "daten/größe/db");
}

#[test]
fn errors_in_words() {
    assert_eq!(Error::Base64.to_string(), "text is not base64");
    assert_eq!(Error::KeyLength.to_string(), "key is too short");
    assert_eq!(Error::Crypto.to_string(), "key pair cannot be read");
    assert_eq!(Error::Codec.to_string(), "message is malformed");
    assert_eq!(Error::NotFound.to_string(), "agent is not registered");
    assert_eq!(Error::Duplicate.to_string(), "agent is registered already");
    assert_eq!(Error::Exhausted.to_string(), "registry is full");
    assert_eq!(Error::Unauthorized.to_string(), "auth failed");
    assert_eq!(Error::Unexpected.to_string(), "unexpected event");
    assert_eq!(
        Error::Execution("No space left on device".to_string()).to_string(),
        "No space left on device"
    );
}
