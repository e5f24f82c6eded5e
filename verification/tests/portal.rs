use rub_login::ipv4::Ipv4Address;
use rub_login::portal::ExtractError;
use rub_login::portal::PortalError;
use rub_login::portal::classify_login_response;
use rub_login::portal::classify_logout_response;
use rub_login::portal::extract_local_ip;
use rub_login::portal::login_form;
use rub_login::portal::logout_form;

fn addr(a: u8, b: u8, c: u8, d: u8) -> Ipv4Address {
    Ipv4Address { a, b, c, d }
}

#[test]
fn extracts_embedded_ip() {
    let body = "<html><form><input name=\"ipaddr\" value=\"192.168.1.42\"></form></html>";
    assert_eq!(extract_local_ip(body), Ok(Some(addr(192, 168, 1, 42))));
}

#[test]
fn extracts_first_embedded_ip() {
    let body = "name=\"ipaddr\" value=\"10.0.0.1\" name=\"ipaddr\" value=\"10.0.0.2\"";
    assert_eq!(extract_local_ip(body), Ok(Some(addr(10, 0, 0, 1))));
}

#[test]
fn off_network_marker_wins_over_ip_text() {
    let body = "Sie befinden sich an einem Arbeitsplatz der nicht Lock-And-Key \
                unterliegt. name=\"ipaddr\" value=\"192.168.1.42\"";
    assert_eq!(extract_local_ip(body), Ok(None));
}

#[test]
fn missing_prefix_marker_is_a_scrape_error() {
    let body = "<html>nothing of interest</html>";
    assert_eq!(extract_local_ip(body), Err(ExtractError::MarkerNotFound));
}

#[test]
fn missing_terminator_is_a_scrape_error() {
    let body = "name=\"ipaddr\" value=\"192.168.1.42";
    assert_eq!(extract_local_ip(body), Err(ExtractError::MarkerNotFound));
}

#[test]
fn non_ip_value_is_an_invalid_literal() {
    let body = "name=\"ipaddr\" value=\"not an ip\"";
    assert_eq!(extract_local_ip(body), Err(ExtractError::InvalidIpLiteral));
    let body = "name=\"ipaddr\" value=\"999.1.2.3\"";
    assert_eq!(extract_local_ip(body), Err(ExtractError::InvalidIpLiteral));
    let body = "name=\"ipaddr\" value=\"\"";
    assert_eq!(extract_local_ip(body), Err(ExtractError::InvalidIpLiteral));
}

#[test]
fn login_success_marker_means_success() {
    let body = "<html>Authentisierung gelungen</html>";
    assert_eq!(classify_login_response(body), Ok(()));
}

#[test]
fn login_success_marker_takes_priority() {
    let body = "Authentisierung gelungen ... Authentisierung fehlgeschlagen";
    assert_eq!(classify_login_response(body), Ok(()));
}

#[test]
fn login_failure_marker_means_authentication_failure() {
    let body = "<html>Authentisierung fehlgeschlagen</html>";
    assert_eq!(
        classify_login_response(body),
        Err(PortalError::AuthenticationFailed)
    );
}

#[test]
fn login_without_markers_is_unexpected() {
    let body = "<html>Service temporarily unavailable</html>";
    assert_eq!(
        classify_login_response(body),
        Err(PortalError::UnexpectedResponse)
    );
}

#[test]
fn logout_success_marker_means_success() {
    let body = "<html>Logout erfolgreich</html>";
    assert_eq!(classify_logout_response(body), Ok(()));
}

#[test]
fn logout_failure_reuses_authentication_phrase() {
    let body = "<html>Authentisierung fehlgeschlagen</html>";
    assert_eq!(
        classify_logout_response(body),
        Err(PortalError::AuthenticationFailed)
    );
}

#[test]
fn logout_without_markers_is_unexpected() {
    let body = "<html>404 not found</html>";
    assert_eq!(
        classify_logout_response(body),
        Err(PortalError::UnexpectedResponse)
    );
}

#[test]
fn login_form_fields() {
    let fields = login_form("alice", "s3cret", addr(192, 168, 1, 42));
    let expected = vec![
        ("code", "1"),
        ("loginid", "alice"),
        ("password", "s3cret"),
        ("ipaddr", "192.168.1.42"),
        ("action", "Login"),
    ];
    assert_eq!(fields.len(), expected.len());
    for (got, want) in fields.iter().zip(expected.iter()) {
        assert_eq!(got.0, want.0);
        assert_eq!(got.1, want.1);
    }
}

#[test]
fn logout_form_fields() {
    let fields = logout_form(addr(10, 20, 30, 40));
    let expected = vec![
        ("code", "1"),
        ("loginid", ""),
        ("password", ""),
        ("ipaddr", "10.20.30.40"),
        ("action", "Logout"),
    ];
    assert_eq!(fields.len(), expected.len());
    for (got, want) in fields.iter().zip(expected.iter()) {
        assert_eq!(got.0, want.0);
        assert_eq!(got.1, want.1);
    }
}

#[test]
fn error_descriptions() {
    assert_eq!(
        ExtractError::MarkerNotFound.describe(),
        "failed to extract ip from response"
    );
    assert_eq!(ExtractError::InvalidIpLiteral.describe(), "failed to parse the ip");
    assert_eq!(PortalError::AuthenticationFailed.describe(), "Authentication failed");
    assert_eq!(PortalError::UnexpectedResponse.describe(), "Unexpected response");
}
