use rowdy::auth::Error;
use rowdy::ldap::{BindReply, DirectoryReplies, LdapAuthenticator, SearchReply, User};

fn s(t: &str) -> String {
    t.to_string()
}

fn make_authenticator() -> LdapAuthenticator {
    LdapAuthenticator {
        address: s("ldap://ldap.forumsys.com"),
        bind_dn: s("cn=read-only-admin,dc=example,dc=com"),
        bind_password: s("password"),
        search_base: s("dc=example,dc=com"),
        search_filter: Some(s("(uid={account})")),
        include_attributes: vec![s("cn")],
        attributes_namespace: Some(s("user")),
    }
}

fn make_user() -> User {
    User {
        dn: s("CN=John Doe,CN=Users,DC=acme,DC=example,DC=com"),
        attributes: vec![
            (s("cn"), vec![s("John Doe")]),
            (s("groups"), vec![s("admins"), s("user")]),
        ],
    }
}

fn euler() -> User {
    User {
        dn: s("uid=euler,dc=example,dc=com"),
        attributes: vec![(s("cn"), vec![s("Leonhard Euler")])],
    }
}

/// The directory's replies when the service bind works, the search finds
/// `entries`, and the bind as the user found answers `user_bind`.
fn replies(entries: Vec<User>, user_bind: BindReply) -> DirectoryReplies {
    DirectoryReplies {
        service_bind: BindReply::Status(0),
        search: SearchReply::Found(entries, 0),
        user_bind,
    }
}

#[test]
fn authentication() {
    let expected_private_claim = vec![(s("cn"), vec![s("Leonhard Euler")])];
    let authenticator = make_authenticator();
    let request = authenticator.search_request("euler").unwrap();
    assert_eq!(request.filter, "(uid=euler)");
    // The directory finds euler, and accepts the password "password".

    let result = authenticator.verify(replies(vec![euler()], BindReply::Status(0)), false).unwrap();
    assert!(result.refresh_payload.is_none());
    assert_eq!(result.private_claims, expected_private_claim);

    let result = authenticator.verify(replies(vec![euler()], BindReply::Status(0)), true).unwrap();
    assert!(result.refresh_payload.is_some());
    assert_eq!(result.private_claims, expected_private_claim);

    let subject = result.subject.clone();
    let refresh_result = authenticator.authenticate_refresh_token(result.refresh_payload.unwrap()).unwrap();
    assert!(refresh_result.refresh_payload.is_none());

    assert_eq!(subject, refresh_result.subject);
}

#[test]
fn attributes_are_included_correctly() {
    let result = LdapAuthenticator::build_authentication_result(
        make_user(),
        vec![s("cn"), s("groups")].as_slice(),
        false,
    )
    .unwrap();
    let expected_attributes = vec![
        (s("cn"), vec![s("John Doe")]),
        (s("groups"), vec![s("admins"), s("user")]),
    ];
    assert_eq!(expected_attributes, result.private_claims);
}

#[test]
fn attributes_are_namespaced_correctly() {}

#[test]
fn missing_attributes_are_ignored() {
    let result = LdapAuthenticator::build_authentication_result(
        make_user(),
        vec![s("cn"), s("not_exist")].as_slice(),
        false,
    )
    .unwrap();
    let expected_attributes = vec![(s("cn"), vec![s("John Doe")])];
    assert_eq!(expected_attributes, result.private_claims);
}

#[test]
#[should_panic(expected = "AuthenticationFailure")]
fn authentication_invalid_user() {
    let authenticator = make_authenticator();
    assert_eq!(authenticator.search_request("donald_trump").unwrap().filter, "(uid=donald_trump)");
    // No entry matches "donald_trump"; the password "password" does not matter.
    authenticator.verify(replies(vec![], BindReply::Status(0)), false).unwrap();
}

#[test]
#[should_panic(expected = "AuthenticationFailure")]
fn authentication_invalid_password() {
    let authenticator = make_authenticator();
    assert_eq!(authenticator.search_request("einstein").unwrap().filter, "(uid=einstein)");
    let einstein = User { dn: s("uid=einstein,dc=example,dc=com"), attributes: vec![] };
    // The directory refuses the bind as einstein with the password "FTL".
    authenticator.verify(replies(vec![einstein], BindReply::Status(49)), false).unwrap();
}

#[test]
fn more_than_one_entry_is_a_failure() {
    let authenticator = make_authenticator();
    let r = authenticator.verify(replies(vec![euler(), make_user()], BindReply::Status(0)), false);
    assert_eq!(r, Err(Error::AuthenticationFailure));
}

#[test]
fn failed_search_is_a_failure() {
    let authenticator = make_authenticator();
    let mut rs = replies(vec![euler()], BindReply::Status(0));
    rs.search = SearchReply::Found(vec![euler()], 32);
    assert_eq!(authenticator.verify(rs, false), Err(Error::AuthenticationFailure));
    let mut rs = replies(vec![], BindReply::Status(0));
    rs.search = SearchReply::Failed(s("bad filter"));
    assert_eq!(authenticator.verify(rs, false), Err(Error::AuthenticationFailure));
}

#[test]
fn failed_user_bind_request_is_a_failure() {
    let authenticator = make_authenticator();
    let r = authenticator.verify(replies(vec![euler()], BindReply::Failed(s("protocol error"))), true);
    assert_eq!(r, Err(Error::AuthenticationFailure));
}

#[test]
fn unreachable_directory_for_user_bind_is_generic() {
    let authenticator = make_authenticator();
    let r = authenticator.verify(replies(vec![euler()], BindReply::Unreachable(s("refused"))), false);
    assert_eq!(r, Err(Error::GenericError(s("refused"))));
}

#[test]
fn refused_service_bind_is_generic_with_code() {
    let authenticator = make_authenticator();
    let mut rs = replies(vec![euler()], BindReply::Status(0));
    rs.service_bind = BindReply::Status(49);
    assert_eq!(
        authenticator.verify(rs, false),
        Err(Error::GenericError(s("Binding failed with reason code: 49")))
    );
    let mut rs = replies(vec![euler()], BindReply::Status(0));
    rs.service_bind = BindReply::Unreachable(s("no route to host"));
    assert_eq!(authenticator.verify(rs, false), Err(Error::GenericError(s("no route to host"))));
}

#[test]
fn refresh_round_trip_keeps_subject_and_claims() {
    let authenticator = LdapAuthenticator { include_attributes: vec![s("groups")], ..make_authenticator() };
    let first = authenticator.verify(replies(vec![make_user()], BindReply::Status(0)), true).unwrap();
    assert_eq!(first.refresh_payload, Some(make_user()));
    let again = authenticator.authenticate_refresh_token(make_user()).unwrap();
    assert_eq!(again.subject, first.subject);
    assert_eq!(again.private_claims, first.private_claims);
    assert_eq!(again.private_claims, vec![(s("groups"), vec![s("admins"), s("user")])]);
    assert!(again.refresh_payload.is_none());
}

#[test]
fn escape_filter_replaces_each_metacharacter() {
    assert_eq!(LdapAuthenticator::escape_filter("a\\b*c(d)e\0f"), "a\\5cb\\2ac\\28d\\29e\\00f");
    assert_eq!(LdapAuthenticator::escape_filter("*)(uid=*))(|(uid=*"), "\\2a\\29\\28uid=\\2a\\29\\29\\28|\\28uid=\\2a");
    assert_eq!(LdapAuthenticator::escape_filter("\\2a"), "\\5c2a");
}

#[test]
fn escape_filter_keeps_plain_text() {
    assert_eq!(LdapAuthenticator::escape_filter("euler"), "euler");
    assert_eq!(LdapAuthenticator::escape_filter(""), "");
    assert_eq!(LdapAuthenticator::escape_filter("Ærøskøbing é"), "Ærøskøbing é");
    let once = LdapAuthenticator::escape_filter("x*y");
    assert_eq!(once, LdapAuthenticator::escape_filter("x*y"));
}

#[test]
fn search_request_fills_escaped_account() {
    let authenticator = make_authenticator();
    let r = authenticator.search_request("ein*stein").unwrap();
    assert_eq!(r.base, "dc=example,dc=com");
    assert_eq!(r.filter, "(uid=ein\\2astein)");

    let no_filter = LdapAuthenticator {
        search_base: s("uid={account},dc=example,dc=com"),
        search_filter: None,
        ..make_authenticator()
    };
    let r = no_filter.search_request("euler").unwrap();
    assert_eq!(r.base, "uid=euler,dc=example,dc=com");
    assert_eq!(r.filter, "");
}

#[test]
fn search_request_reports_template_errors() {
    let broken = LdapAuthenticator { search_filter: Some(s("(uid={unknown})")), ..make_authenticator() };
    assert!(matches!(broken.search_request("euler"), Err(Error::GenericError(_))));
}

#[test]
fn make_authenticator_requires_service_bind() {
    let config = make_authenticator();
    assert_eq!(config.make_authenticator(&BindReply::Status(0)), Ok(make_authenticator()));
    assert_eq!(
        config.make_authenticator(&BindReply::Status(7)),
        Err(Error::GenericError(s("Binding failed with reason code: 7")))
    );
    assert_eq!(
        config.make_authenticator(&BindReply::Failed(s("timeout"))),
        Err(Error::GenericError(s("timeout")))
    );
}
