//! Authentication against an LDAP directory: templated search, two-phase bind
//! and projection of directory attributes into claims.
//!
//! The network exchange itself is performed by the caller, which reports the
//! directory's replies; this module decides what they mean.
use vstd::prelude::*;

use crate::auth::{claims_view, copy_strings, strings_view, Claim, Error};
use crate::filter::{escape_char, escaped};
use crate::text::{decimal, push_all, push_char, push_decimal};

verus! {

/// A directory entry: its distinguished name and its attributes, each a name
/// with an ordered list of values.
#[derive(Debug, PartialEq, Eq)]
pub struct User {
    pub dn: String,
    pub attributes: Vec<Claim>,
}

/// The mathematical value of a [`User`].
pub struct UserView {
    pub dn: Seq<char>,
    pub attributes: Seq<(Seq<char>, Seq<Seq<char>>)>,
}

impl View for User {
    type V = UserView;

    open spec fn view(&self) -> UserView {
        UserView { dn: self.dn@, attributes: claims_view(self.attributes@) }
    }
}

/// The result of a successful authentication.
#[derive(Debug, PartialEq, Eq)]
pub struct AuthenticationResult {
    /// The stable identity of the authenticated principal.
    pub subject: String,
    /// The projected directory attributes.
    pub private_claims: Vec<Claim>,
    /// What a later refresh needs to rebuild this result, when it was asked for.
    pub refresh_payload: Option<User>,
}

/// The mathematical value of an [`AuthenticationResult`].
pub struct AuthenticationResultView {
    pub subject: Seq<char>,
    pub private_claims: Seq<(Seq<char>, Seq<Seq<char>>)>,
    pub refresh_payload: Option<UserView>,
}

impl View for AuthenticationResult {
    type V = AuthenticationResultView;

    open spec fn view(&self) -> AuthenticationResultView {
        AuthenticationResultView {
            subject: self.subject@,
            private_claims: claims_view(self.private_claims@),
            refresh_payload: match self.refresh_payload {
                Some(u) => Some(u@),
                None => None,
            },
        }
    }
}

/// The values of the first attribute named `key`, if there is one.
pub open spec fn attribute_values(
    attributes: Seq<(Seq<char>, Seq<Seq<char>>)>,
    key: Seq<char>,
) -> Option<Seq<Seq<char>>>
    decreases attributes.len(),
{
    if attributes.len() == 0 {
        None
    } else if attributes[0].0 == key {
        Some(attributes[0].1)
    } else {
        attribute_values(attributes.drop_first(), key)
    }
}

/// The claims projected from `attributes`: for each name of `selected` in turn
/// that the entry has, that name with its values. Absent names are skipped.
pub open spec fn projected(
    attributes: Seq<(Seq<char>, Seq<Seq<char>>)>,
    selected: Seq<Seq<char>>,
) -> Seq<(Seq<char>, Seq<Seq<char>>)>
    decreases selected.len(),
{
    if selected.len() == 0 {
        Seq::empty()
    } else {
        let prev = projected(attributes, selected.drop_last());
        match attribute_values(attributes, selected.last()) {
            Some(values) => prev.push((selected.last(), values)),
            None => prev,
        }
    }
}

/// The result of authenticating `user`, projecting `selected`, with the user as
/// refresh payload exactly when `refresh` is asked for.
pub open spec fn authentication_result(
    user: UserView,
    selected: Seq<Seq<char>>,
    refresh: bool,
) -> AuthenticationResultView {
    AuthenticationResultView {
        subject: user.dn,
        private_claims: projected(user.attributes, selected),
        refresh_payload: if refresh {
            Some(user)
        } else {
            None
        },
    }
}

/// Index of the first attribute named `key`.
fn find_attribute(attributes: &Vec<Claim>, key: &String) -> (r: Option<usize>)
    ensures
        match r {
            Some(i) => i < attributes@.len() && attribute_values(claims_view(attributes@), key@)
                == Some(claims_view(attributes@)[i as int].1),
            None => attribute_values(claims_view(attributes@), key@) is None,
        },
{
    let ghost all = claims_view(attributes@);
    let mut i: usize = 0;
    assert(all.skip(0) =~= all);
    while i < attributes.len()
        invariant
            i <= attributes@.len(),
            all == claims_view(attributes@),
            attribute_values(all, key@) == attribute_values(all.skip(i as int), key@),
        decreases attributes@.len() - i,
    {
        assert(all.skip(i as int)[0] == all[i as int]);
        if attributes[i].0 == *key {
            return Some(i);
        }
        assert(all.skip(i as int).drop_first() =~= all.skip(i + 1 as int));
        i = i + 1;
    }
    None
}

/// A user's claims: the attributes of `selected` that the user has, in that order.
fn project_attributes(user: &User, selected: &[String]) -> (r: Vec<Claim>)
    ensures
        claims_view(r@) == projected(user@.attributes, selected@.map_values(|s: String| s@)),
{
    let ghost names = selected@.map_values(|s: String| s@);
    let mut r: Vec<Claim> = Vec::new();
    let mut i: usize = 0;
    while i < selected.len()
        invariant
            i <= selected@.len(),
            names == selected@.map_values(|s: String| s@),
            claims_view(r@) == projected(user@.attributes, names.subrange(0, i as int)),
        decreases selected@.len() - i,
    {
        let key = &selected[i];
        assert(names.subrange(0, i + 1 as int).drop_last() =~= names.subrange(0, i as int));
        assert(names.subrange(0, i + 1 as int).last() == key@);
        match find_attribute(&user.attributes, key) {
            Some(k) => {
                let values = copy_strings(&user.attributes[k].1);
                r.push((key.clone(), values));
                assert(claims_view(r@) =~= projected(
                    user@.attributes,
                    names.subrange(0, i + 1 as int),
                ));
            },
            None => {},
        }
        i = i + 1;
    }
    assert(names.subrange(0, selected@.len() as int) =~= names);
    r
}


/// The text that `strfmt` produces from `template` when `{account}` stands for
/// `account`, or `None` where it reports an error.
pub uninterp spec fn account_template(template: Seq<char>, account: Seq<char>) -> Option<Seq<char>>;

/// Relies on `strfmt::strfmt`: fills a template whose only variable is
/// `account`. The result depends on the template and the value alone; an error
/// comes back as its message.
#[verifier::external_body]
fn fill_account(template: &str, account: &str) -> (r: Result<String, String>)
    ensures
        r is Ok <==> account_template(template@, account@) is Some,
        r is Ok ==> r->Ok_0@ == account_template(template@, account@)->0,
{
    let mut vars: std::collections::HashMap<String, String> = std::collections::HashMap::new();
    vars.insert("account".to_string(), account.to_string());
    match strfmt::strfmt(template, &vars) {
        Ok(t) => Ok(t),
        Err(e) => Err(e.to_string()),
    }
}

/// A template filled with the escaped form of `username`.
pub open spec fn filled(template: Seq<char>, username: Seq<char>) -> Option<Seq<char>> {
    account_template(template, escaped(username))
}

/// Where and how to look a user up in the directory.
#[derive(Debug, PartialEq, Eq)]
pub struct SearchRequest {
    /// The base of the subtree search.
    pub base: String,
    /// The search filter; empty when none is configured.
    pub filter: String,
}

/// How the directory answered a bind.
#[derive(Debug, PartialEq, Eq)]
pub enum BindReply {
    /// No connection could be opened; carries the reason.
    Unreachable(String),
    /// The bind request failed on an open connection; carries the reason.
    Failed(String),
    /// The server answered the bind with this result code.
    Status(u32),
}

/// How the directory answered the user search.
#[derive(Debug, PartialEq, Eq)]
pub enum SearchReply {
    /// The search could not be made or failed; carries the reason.
    Failed(String),
    /// The server answered with these entries and this result code.
    Found(Vec<User>, u32),
}

/// The directory's replies during one verification, in the order in which the
/// requests are made: the service bind, the user search, and the bind as the
/// user found. A reply to a request that was never made, because an earlier
/// one already decided the outcome, is not looked at.
#[derive(Debug, PartialEq, Eq)]
pub struct DirectoryReplies {
    pub service_bind: BindReply,
    pub search: SearchReply,
    pub user_bind: BindReply,
}

/// The result code of a successful operation.
pub const LDAP_SUCCESS: u32 = 0;

/// The detail of a refused bind with result code `rc`.
pub open spec fn bind_refusal(rc: u32) -> Seq<char> {
    seq!['B', 'i', 'n', 'd', 'i', 'n', 'g', ' ', 'f', 'a', 'i', 'l', 'e', 'd', ' ', 'w', 'i', 't', 'h', ' ',
    'r', 'e', 'a', 's', 'o', 'n', ' ', 'c', 'o', 'd', 'e', ':', ' '] + decimal(rc as nat)
}

/// Why a bind did not succeed, or `None` where it did.
pub open spec fn bind_problem(reply: BindReply) -> Option<Seq<char>> {
    match reply {
        BindReply::Unreachable(m) => Some(m@),
        BindReply::Failed(m) => Some(m@),
        BindReply::Status(rc) => if rc == LDAP_SUCCESS {
            None
        } else {
            Some(bind_refusal(rc))
        },
    }
}

/// The single entry of a successful search, or `None` where the search failed
/// or found no entry or more than one.
pub open spec fn sole_entry(reply: SearchReply) -> Option<User> {
    match reply {
        SearchReply::Found(entries, rc) => if rc == LDAP_SUCCESS && entries@.len() == 1 {
            Some(entries@[0])
        } else {
            None
        },
        SearchReply::Failed(_) => None,
    }
}

/// The DN of the single entry of a successful search: the entry to bind as
/// with the caller's password. `None` where there is no such entry.
pub fn sole_entry_dn(reply: &SearchReply) -> (r: Option<String>)
    ensures
        r is Some <==> sole_entry(*reply) is Some,
        r is Some ==> r->0@ == sole_entry(*reply)->0.dn@,
{
    match reply {
        SearchReply::Found(entries, rc) => {
            if *rc == LDAP_SUCCESS && entries.len() == 1 {
                Some(entries[0].dn.clone())
            } else {
                None
            }
        },
        SearchReply::Failed(_) => None,
    }
}

/// An error that is a `GenericError` with detail `m`.
pub open spec fn is_generic(e: Error, m: Seq<char>) -> bool {
    e is GenericError && e->GenericError_0@ == m
}

/// What a bind reply means: success, or a `GenericError` that says why not.
pub fn check_bind(reply: &BindReply) -> (r: Result<(), Error>)
    ensures
        r is Ok <==> bind_problem(*reply) is None,
        r is Err ==> is_generic(r->Err_0, bind_problem(*reply)->0),
{
    match reply {
        BindReply::Unreachable(m) => Err(Error::GenericError(m.clone())),
        BindReply::Failed(m) => Err(Error::GenericError(m.clone())),
        BindReply::Status(rc) => {
            if *rc == LDAP_SUCCESS {
                Ok(())
            } else {
                let mut m = String::new();
                push_all(&mut m, "Binding failed with reason code: ");
                push_decimal(&mut m, *rc as u64);
                proof {
                    reveal_strlit("Binding failed with reason code: ");
                }
                assert(m@ =~= bind_refusal(*rc));
                Err(Error::GenericError(m))
            }
        },
    }
}

/// An authenticator that uses an LDAP directory as identity provider.
#[derive(Debug, PartialEq, Eq)]
pub struct LdapAuthenticator {
    /// Location of the LDAP server.
    pub address: String,
    /// The entry bound to search for users.
    pub bind_dn: String,
    /// The password of `bind_dn`.
    pub bind_password: String,
    /// Base of the user search; `{account}` stands for the escaped account name.
    pub search_base: String,
    /// Filter of the user search; `{account}` stands for the escaped account name.
    pub search_filter: Option<String>,
    /// Attributes of the user's entry that become claims. Missing ones are skipped.
    pub include_attributes: Vec<String>,
    /// Key under which the claims are meant to be nested; not applied yet.
    pub attributes_namespace: Option<String>,
}

/// The view of the attribute names an authenticator projects.
pub open spec fn names_view(v: Seq<String>) -> Seq<Seq<char>> {
    v.map_values(|s: String| s@)
}

/// Whether two configurations hold the same values.
pub open spec fn same_configuration(a: LdapAuthenticator, b: LdapAuthenticator) -> bool {
    &&& a.address@ == b.address@
    &&& a.bind_dn@ == b.bind_dn@
    &&& a.bind_password@ == b.bind_password@
    &&& a.search_base@ == b.search_base@
    &&& a.search_filter == b.search_filter
    &&& a.include_attributes@ == b.include_attributes@
    &&& a.attributes_namespace == b.attributes_namespace
}

fn copy_optional(v: &Option<String>) -> (r: Option<String>)
    ensures
        r == *v,
{
    match v {
        Some(s) => Some(s.clone()),
        None => None,
    }
}

impl LdapAuthenticator {
    /// Escapes `filter` for a search filter (RFC 4515): `\`, `*`, `(`, `)` and
    /// NUL become `\5c`, `\2a`, `\28`, `\29` and `\00`.
    pub fn escape_filter(filter: &str) -> (r: String)
        ensures
            r@ == escaped(filter@),
    {
        let n = filter.unicode_len();
        let mut r = String::new();
        let mut i: usize = 0;
        while i < n
            invariant
                n == filter@.len(),
                i <= n,
                r@ == escaped(filter@.subrange(0, i as int)),
            decreases n - i,
        {
            let c = filter.get_char(i);
            if c == '\\' {
                push_char(&mut r, '\\');
                push_char(&mut r, '5');
                push_char(&mut r, 'c');
            } else if c == '*' {
                push_char(&mut r, '\\');
                push_char(&mut r, '2');
                push_char(&mut r, 'a');
            } else if c == '(' {
                push_char(&mut r, '\\');
                push_char(&mut r, '2');
                push_char(&mut r, '8');
            } else if c == ')' {
                push_char(&mut r, '\\');
                push_char(&mut r, '2');
                push_char(&mut r, '9');
            } else if c == '\0' {
                push_char(&mut r, '\\');
                push_char(&mut r, '0');
                push_char(&mut r, '0');
            } else {
                push_char(&mut r, c);
            }
            assert(filter@.subrange(0, i + 1 as int).drop_last() =~= filter@.subrange(0, i as int));
            assert(r@ =~= escaped(filter@.subrange(0, i as int)) + escape_char(c));
            i = i + 1;
        }
        assert(filter@.subrange(0, n as int) =~= filter@);
        r
    }

    /// Builds the result of authenticating `user`: its DN as subject, the
    /// `selected` attributes it has as claims, and itself as refresh payload
    /// exactly when `include_refresh_payload` is set.
    pub fn build_authentication_result(
        user: User,
        selected: &[String],
        include_refresh_payload: bool,
    ) -> (r: Result<AuthenticationResult, Error>)
        ensures
            r is Ok,
            r->Ok_0@ == authentication_result(user@, names_view(selected@), include_refresh_payload),
    {
        let private_claims = project_attributes(&user, selected);
        let subject = user.dn.clone();
        let refresh_payload = if include_refresh_payload {
            Some(user)
        } else {
            None
        };
        Ok(AuthenticationResult { subject, private_claims, refresh_payload })
    }

    /// The search for `username`: its escaped form substituted for `{account}`
    /// in the configured base and, if there is one, filter.
    pub fn search_request(&self, username: &str) -> (r: Result<SearchRequest, Error>)
        ensures
            r is Ok <==> (filled(self.search_base@, username@) is Some && (self.search_filter is Some
                ==> filled(self.search_filter->0@, username@) is Some)),
            r is Ok ==> r->Ok_0.base@ == filled(self.search_base@, username@)->0,
            r is Ok ==> r->Ok_0.filter@ == match self.search_filter {
                Some(f) => filled(f@, username@)->0,
                None => Seq::<char>::empty(),
            },
            r is Err ==> r->Err_0 is GenericError,
    {
        let account = Self::escape_filter(username);
        let base = match fill_account(self.search_base.as_str(), account.as_str()) {
            Ok(b) => b,
            Err(m) => {
                return Err(Error::GenericError(m));
            },
        };
        let filter = match &self.search_filter {
            None => String::new(),
            Some(f) => match fill_account(f.as_str(), account.as_str()) {
                Ok(t) => t,
                Err(m) => {
                    return Err(Error::GenericError(m));
                },
            },
        };
        Ok(SearchRequest { base, filter })
    }

    /// Decides a username/password verification from the directory's replies:
    /// the service bind must succeed (else a `GenericError` saying why), the
    /// search must find exactly one entry and the bind as that entry with the
    /// caller's password must succeed (else `AuthenticationFailure`, or a
    /// `GenericError` where no connection could be opened for that bind).
    pub fn verify(&self, replies: DirectoryReplies, include_refresh_payload: bool) -> (r: Result<
        AuthenticationResult,
        Error,
    >)
        ensures
            bind_problem(replies.service_bind) is Some ==> r is Err && is_generic(
                r->Err_0,
                bind_problem(replies.service_bind)->0,
            ),
            bind_problem(replies.service_bind) is None && sole_entry(replies.search) is None ==> r is Err
                && r->Err_0 is AuthenticationFailure,
            bind_problem(replies.service_bind) is None && sole_entry(replies.search) is Some
                && replies.user_bind is Unreachable ==> r is Err && is_generic(
                r->Err_0,
                replies.user_bind->Unreachable_0@,
            ),
            bind_problem(replies.service_bind) is None && sole_entry(replies.search) is Some
                && !(replies.user_bind is Unreachable) && bind_problem(replies.user_bind) is Some
                ==> r is Err && r->Err_0 is AuthenticationFailure,
            bind_problem(replies.service_bind) is None && sole_entry(replies.search) is Some
                && bind_problem(replies.user_bind) is None ==> r is Ok && r->Ok_0@
                == authentication_result(
                sole_entry(replies.search)->0@,
                names_view(self.include_attributes@),
                include_refresh_payload,
            ),
    {
        let DirectoryReplies { service_bind, search, user_bind } = replies;
        match check_bind(&service_bind) {
            Ok(()) => {},
            Err(e) => {
                return Err(e);
            },
        }
        let user = match search {
            SearchReply::Failed(_) => {
                return Err(Error::AuthenticationFailure);
            },
            SearchReply::Found(mut entries, rc) => {
                if rc != LDAP_SUCCESS || entries.len() != 1 {
                    return Err(Error::AuthenticationFailure);
                }
                match entries.pop() {
                    Some(u) => u,
                    None => {
                        return Err(Error::AuthenticationFailure);
                    },
                }
            },
        };
        match user_bind {
            BindReply::Unreachable(m) => {
                return Err(Error::GenericError(m));
            },
            BindReply::Failed(_) => {
                return Err(Error::AuthenticationFailure);
            },
            BindReply::Status(rc) => {
                if rc != LDAP_SUCCESS {
                    return Err(Error::AuthenticationFailure);
                }
            },
        }
        Self::build_authentication_result(
            user,
            self.include_attributes.as_slice(),
            include_refresh_payload,
        )
    }

    /// Rebuilds an authentication result from a refresh payload, without
    /// contacting the directory; the new result carries no refresh payload.
    pub fn authenticate_refresh_token(&self, refresh_payload: User) -> (r: Result<
        AuthenticationResult,
        Error,
    >)
        ensures
            r is Ok,
            r->Ok_0@ == authentication_result(
                refresh_payload@,
                names_view(self.include_attributes@),
                false,
            ),
    {
        Self::build_authentication_result(refresh_payload, self.include_attributes.as_slice(), false)
    }

    /// Readies this configuration for use once the service bind made at setup
    /// has succeeded; otherwise fails with a `GenericError` saying why.
    pub fn make_authenticator(&self, service_bind: &BindReply) -> (r: Result<LdapAuthenticator, Error>)
        ensures
            r is Ok <==> bind_problem(*service_bind) is None,
            r is Err ==> is_generic(r->Err_0, bind_problem(*service_bind)->0),
            r is Ok ==> same_configuration(r->Ok_0, *self),
    {
        match check_bind(service_bind) {
            Err(e) => Err(e),
            Ok(()) => Ok(LdapAuthenticator {
                address: self.address.clone(),
                bind_dn: self.bind_dn.clone(),
                bind_password: self.bind_password.clone(),
                search_base: self.search_base.clone(),
                search_filter: copy_optional(&self.search_filter),
                include_attributes: copy_strings(&self.include_attributes),
                attributes_namespace: copy_optional(&self.attributes_namespace),
            }),
        }
    }
}


/// Refreshing with the payload of a successful authentication that asked for
/// one gives a result with the same subject and claims, and without a payload.
pub proof fn lemma_refresh_round_trip(user: UserView, names: Seq<Seq<char>>)
    ensures
        authentication_result(user, names, true).refresh_payload is Some,
        ({
            let first = authentication_result(user, names, true);
            let again = authentication_result(first.refresh_payload->0, names, false);
            &&& again.subject == first.subject
            &&& again.private_claims == first.private_claims
            &&& again.refresh_payload is None
        }),
{
}

/// Without a request for it, an authentication result never carries a refresh
/// payload; with one, it always does.
pub proof fn lemma_refresh_payload_iff_requested(user: UserView, names: Seq<Seq<char>>, refresh: bool)
    ensures
        authentication_result(user, names, refresh).refresh_payload is Some <==> refresh,
{
}


/// Projection keeps exactly what was asked for and is there: each claim is a
/// selected attribute that the entry has, with the entry's values, and each
/// selected attribute that the entry has is claimed.
pub proof fn lemma_projection_exact(
    attributes: Seq<(Seq<char>, Seq<Seq<char>>)>,
    selected: Seq<Seq<char>>,
)
    ensures
        forall|i: int|
            #![trigger projected(attributes, selected)[i]]
            0 <= i < projected(attributes, selected).len() ==> {
                let (k, v) = projected(attributes, selected)[i];
                selected.contains(k) && attribute_values(attributes, k) == Some(v)
            },
        forall|k: Seq<char>|
            #![trigger selected.contains(k)]
            selected.contains(k) && attribute_values(attributes, k) is Some ==> exists|i: int|
                0 <= i < projected(attributes, selected).len() && (#[trigger] projected(
                    attributes,
                    selected,
                )[i]).0 == k,
    decreases selected.len(),
{
    if selected.len() > 0 {
        let rest = selected.drop_last();
        let last = selected.last();
        lemma_projection_exact(attributes, rest);
        let prev = projected(attributes, rest);
        let all = projected(attributes, selected);
        assert forall|i: int|
            #![trigger all[i]]
            0 <= i < all.len() implies {
                let (k, v) = all[i];
                selected.contains(k) && attribute_values(attributes, k) == Some(v)
            } by {
            if i < prev.len() {
                assert(all[i] == prev[i]);
                let j = choose|j: int| 0 <= j < rest.len() && rest[j] == prev[i].0;
                assert(selected[j] == rest[j]);
            } else {
                assert(selected[selected.len() - 1] == last);
            }
        }
        assert forall|k: Seq<char>|
            #![trigger selected.contains(k)]
            selected.contains(k) && attribute_values(attributes, k) is Some implies exists|i: int|
                0 <= i < all.len() && (#[trigger] all[i]).0 == k by {
            let j = choose|j: int| 0 <= j < selected.len() && selected[j] == k;
            if j < rest.len() {
                assert(rest[j] == k);
                assert(rest.contains(k));
                let i = choose|i: int| 0 <= i < prev.len() && (#[trigger] prev[i]).0 == k;
                assert(all[i] == prev[i]);
            } else {
                assert(all[prev.len() as int].0 == k);
            }
        }
    }
}

} // verus!
