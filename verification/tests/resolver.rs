use fabric_installer::resolver::{resolve_latest_installer_url, ResolveError};

#[test]
fn resolves_latest_from_stub_metadata() {
    let body = "[{\"url\":\"https://example/installer-1.2.3.jar\"},{\"url\":\"https://example/installer-1.2.2.jar\"}]";
    let r = resolve_latest_installer_url(body);
    assert_eq!(r.unwrap(), "https://example/installer-1.2.3.jar");
}

#[test]
fn later_elements_never_matter() {
    let body = "[{\"url\":\"https://example/a.jar\"},{\"no_url\":1},null,42]";
    let r = resolve_latest_installer_url(body);
    assert_eq!(r.unwrap(), "https://example/a.jar");
}

#[test]
fn empty_array_is_rejected() {
    assert_eq!(resolve_latest_installer_url("[]"), Err(ResolveError::EmptyArray));
}

#[test]
fn missing_url_field_is_rejected() {
    assert_eq!(
        resolve_latest_installer_url("[{\"version\":\"1.2.3\"}]"),
        Err(ResolveError::MissingUrl)
    );
}

#[test]
fn non_string_url_is_rejected() {
    assert_eq!(
        resolve_latest_installer_url("[{\"url\":123}]"),
        Err(ResolveError::MissingUrl)
    );
}

#[test]
fn non_array_body_is_rejected() {
    assert_eq!(
        resolve_latest_installer_url("{\"url\":\"https://example/a.jar\"}"),
        Err(ResolveError::NotAnArray)
    );
}

#[test]
fn invalid_json_is_rejected() {
    assert_eq!(resolve_latest_installer_url("not json"), Err(ResolveError::NotAnArray));
}
