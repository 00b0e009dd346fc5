//! Cross-origin resource sharing: typed request headers and the response
//! headers negotiated from a policy.
use vstd::prelude::*;

use crate::text::{decimal, decimal_text, push_all, push_char, split_on, trimmed, trimmed_piece};

verus! {

/// The request methods that a policy can name.
#[derive(Debug, Clone, Copy, PartialEq, Eq, Structural)]
pub enum Method {
    Get,
    Put,
    Post,
    Delete,
    Options,
    Head,
    Trace,
    Connect,
    Patch,
}

/// The canonical, uppercase name of a method.
pub open spec fn method_name(m: Method) -> Seq<char> {
    match m {
        Method::Get => seq!['G', 'E', 'T'],
        Method::Put => seq!['P', 'U', 'T'],
        Method::Post => seq!['P', 'O', 'S', 'T'],
        Method::Delete => seq!['D', 'E', 'L', 'E', 'T', 'E'],
        Method::Options => seq!['O', 'P', 'T', 'I', 'O', 'N', 'S'],
        Method::Head => seq!['H', 'E', 'A', 'D'],
        Method::Trace => seq!['T', 'R', 'A', 'C', 'E'],
        Method::Connect => seq!['C', 'O', 'N', 'N', 'E', 'C', 'T'],
        Method::Patch => seq!['P', 'A', 'T', 'C', 'H'],
    }
}

/// A character with ASCII lowercase letters turned to uppercase.
pub open spec fn ascii_upper(c: char) -> char {
    if 'a' <= c && c <= 'z' {
        ((c as u32) - 32) as char
    } else {
        c
    }
}

/// Whether `s` names `m`, ignoring ASCII case.
pub open spec fn names_method(s: Seq<char>, m: Method) -> bool {
    s.map_values(|c: char| ascii_upper(c)) == method_name(m)
}

/// The method that `s` names, ignoring ASCII case, if any.
pub open spec fn method_named(s: Seq<char>) -> Option<Method> {
    if names_method(s, Method::Get) {
        Some(Method::Get)
    } else if names_method(s, Method::Put) {
        Some(Method::Put)
    } else if names_method(s, Method::Post) {
        Some(Method::Post)
    } else if names_method(s, Method::Delete) {
        Some(Method::Delete)
    } else if names_method(s, Method::Options) {
        Some(Method::Options)
    } else if names_method(s, Method::Head) {
        Some(Method::Head)
    } else if names_method(s, Method::Trace) {
        Some(Method::Trace)
    } else if names_method(s, Method::Connect) {
        Some(Method::Connect)
    } else if names_method(s, Method::Patch) {
        Some(Method::Patch)
    } else {
        None
    }
}

/// Relies on rocket's `Method::from_str`: it accepts exactly the nine method
/// names, compared without regard to ASCII case.
#[verifier::external_body]
fn parse_method(s: &str) -> (r: Option<Method>)
    ensures
        r == method_named(s@),
{
    match <rocket::http::Method as std::str::FromStr>::from_str(s) {
        Ok(rocket::http::Method::Get) => Some(Method::Get),
        Ok(rocket::http::Method::Put) => Some(Method::Put),
        Ok(rocket::http::Method::Post) => Some(Method::Post),
        Ok(rocket::http::Method::Delete) => Some(Method::Delete),
        Ok(rocket::http::Method::Options) => Some(Method::Options),
        Ok(rocket::http::Method::Head) => Some(Method::Head),
        Ok(rocket::http::Method::Trace) => Some(Method::Trace),
        Ok(rocket::http::Method::Connect) => Some(Method::Connect),
        Ok(rocket::http::Method::Patch) => Some(Method::Patch),
        Err(()) => None,
    }
}

impl Method {
    /// The canonical name of this method.
    pub fn as_str(&self) -> (r: &'static str)
        ensures
            r@ == method_name(*self),
    {
        proof {
            reveal_strlit("GET");
            reveal_strlit("PUT");
            reveal_strlit("POST");
            reveal_strlit("DELETE");
            reveal_strlit("OPTIONS");
            reveal_strlit("HEAD");
            reveal_strlit("TRACE");
            reveal_strlit("CONNECT");
            reveal_strlit("PATCH");
        }
        match self {
            Method::Get => "GET",
            Method::Put => "PUT",
            Method::Post => "POST",
            Method::Delete => "DELETE",
            Method::Options => "OPTIONS",
            Method::Head => "HEAD",
            Method::Trace => "TRACE",
            Method::Connect => "CONNECT",
            Method::Patch => "PATCH",
        }
    }
}

#[verifier::external_type_specification]
#[verifier::external_body]
pub struct ExParseError(hyper::error::ParseError);

/// The serialization of the absolute URL that `s` parses to, or `None` where
/// it is no well-formed absolute URL.
pub uninterp spec fn parsed_url(s: Seq<char>) -> Option<Seq<char>>;

/// Relies on `hyper::Url::parse` (the `url` crate's parser): the outcome
/// depends on the text alone; a parsed URL is kept as its serialization.
#[verifier::external_body]
fn parse_url(s: &str) -> (r: Result<String, hyper::error::ParseError>)
    ensures
        r is Ok <==> parsed_url(s@) is Some,
        r is Ok ==> r->Ok_0@ == parsed_url(s@)->0,
{
    match hyper::Url::parse(s) {
        Ok(url) => Ok(url.into_string()),
        Err(e) => Err(e),
    }
}


/// Why a CORS request header was refused.
#[derive(Debug)]
pub enum Error {
    /// The request header `Origin` is required but is missing.
    MissingOrigin,
    /// The request header `Origin` holds no valid absolute URL.
    BadOrigin(hyper::error::ParseError),
    /// The request header `Access-Control-Request-Method` is required but is missing.
    MissingRequestMethod,
    /// The request header `Access-Control-Request-Method` names no known method.
    BadRequestMethod,
    /// The request header `Access-Control-Request-Headers` is required but is missing.
    MissingRequestHeaders,
}

impl Error {
    /// A description of the error for people.
    pub fn description(&self) -> (r: &'static str)
        ensures
            self is MissingOrigin ==> r@ == "The request header `Origin` is required but is missing"@,
            self is BadOrigin ==> r@ == "The request header `Origin` contains an invalid URL"@,
            self is MissingRequestMethod ==> r@
                == "The request header `Access-Control-Request-Method` is required but is missing"@,
            self is BadRequestMethod ==> r@
                == "The request header `Access-Control-Request-Method` has an invalid value"@,
            self is MissingRequestHeaders ==> r@
                == "The request header `Access-Control-Request-Headers` is required but is missing"@,
    {
        proof {
            reveal_strlit("The request header `Origin` is required but is missing");
            reveal_strlit("The request header `Origin` contains an invalid URL");
            reveal_strlit("The request header `Access-Control-Request-Method` is required but is missing");
            reveal_strlit("The request header `Access-Control-Request-Method` has an invalid value");
            reveal_strlit("The request header `Access-Control-Request-Headers` is required but is missing");
        }
        match self {
            Error::MissingOrigin => "The request header `Origin` is required but is missing",
            Error::BadOrigin(_) => "The request header `Origin` contains an invalid URL",
            Error::MissingRequestMethod => "The request header `Access-Control-Request-Method` is required but is missing",
            Error::BadRequestMethod => "The request header `Access-Control-Request-Method` has an invalid value",
            Error::MissingRequestHeaders => "The request header `Access-Control-Request-Headers` is required but is missing",
        }
    }
}

/// The `Origin` request header: an absolute URL, kept as its serialization.
#[derive(Debug, PartialEq, Eq)]
pub struct Origin(pub String);

impl Origin {
    /// Parses an origin; fails exactly where `url` is no well-formed absolute URL.
    pub fn from_str(url: &str) -> (r: Result<Origin, hyper::error::ParseError>)
        ensures
            r is Ok <==> parsed_url(url@) is Some,
            r is Ok ==> r->Ok_0.0@ == parsed_url(url@)->0,
    {
        match parse_url(url) {
            Ok(u) => Ok(Origin(u)),
            Err(e) => Err(e),
        }
    }

    /// The origin of a request, from the value of its `Origin` header if present.
    pub fn from_request(header: Option<&str>) -> (r: Result<Origin, Error>)
        ensures
            header is None ==> r is Err && r->Err_0 is MissingOrigin,
            header is Some ==> (r is Ok <==> parsed_url(header->0@) is Some),
            header is Some && r is Ok ==> r->Ok_0.0@ == parsed_url(header->0@)->0,
            header is Some && r is Err ==> r->Err_0 is BadOrigin,
    {
        match header {
            None => Err(Error::MissingOrigin),
            Some(h) => match Self::from_str(h) {
                Ok(o) => Ok(o),
                Err(e) => Err(Error::BadOrigin(e)),
            },
        }
    }
}

/// The `Access-Control-Request-Method` request header.
#[derive(Debug, Clone, Copy, PartialEq, Eq)]
pub struct AccessControlRequestMethod(pub Method);

impl AccessControlRequestMethod {
    /// Parses a method name, ignoring ASCII case.
    pub fn from_str(method: &str) -> (r: Result<AccessControlRequestMethod, ()>)
        ensures
            r is Ok <==> method_named(method@) is Some,
            r is Ok ==> Some(r->Ok_0.0) == method_named(method@),
    {
        match parse_method(method) {
            Some(m) => Ok(AccessControlRequestMethod(m)),
            None => Err(()),
        }
    }

    /// The requested method, from the value of the header if present.
    pub fn from_request(header: Option<&str>) -> (r: Result<AccessControlRequestMethod, Error>)
        ensures
            header is None ==> r is Err && r->Err_0 is MissingRequestMethod,
            header is Some ==> (r is Ok <==> method_named(header->0@) is Some),
            header is Some && r is Ok ==> Some(r->Ok_0.0) == method_named(header->0@),
            header is Some && r is Err ==> r->Err_0 is BadRequestMethod,
    {
        match header {
            None => Err(Error::MissingRequestMethod),
            Some(h) => match Self::from_str(h) {
                Ok(m) => Ok(m),
                Err(()) => Err(Error::BadRequestMethod),
            },
        }
    }
}

/// The view of a list of strings.
pub open spec fn views(v: Seq<String>) -> Seq<Seq<char>> {
    v.map_values(|s: String| s@)
}

/// The header names that a value of `Access-Control-Request-Headers` lists:
/// its comma-separated pieces, trimmed.
pub open spec fn listed_headers(s: Seq<char>) -> Set<Seq<char>> {
    split_on(s, ',').map_values(|t: Seq<char>| trimmed(t)).to_set()
}

/// Whether `v` holds `t`.
fn holds(v: &Vec<String>, t: &String) -> (r: bool)
    ensures
        r == views(v@).contains(t@),
{
    let mut i: usize = 0;
    while i < v.len()
        invariant
            i <= v@.len(),
            forall|j: int| 0 <= j < i ==> v@[j]@ != t@,
        decreases v@.len() - i,
    {
        if v[i] == *t {
            assert(views(v@)[i as int] == t@);
            return true;
        }
        i = i + 1;
    }
    false
}

proof fn lemma_push_to_set<A>(s: Seq<A>, x: A)
    ensures
        s.push(x).to_set() == s.to_set().insert(x),
{
    assert forall|a: A| #[trigger] s.push(x).contains(a) <==> (s.contains(a) || a == x) by {
        if s.contains(a) {
            let i = choose|i: int| 0 <= i < s.len() && s[i] == a;
            assert(s.push(x)[i] == a);
        }
        if a == x {
            assert(s.push(x)[s.len() as int] == a);
        }
        if s.push(x).contains(a) {
            let i = choose|i: int| 0 <= i < s.len() + 1 && s.push(x)[i] == a;
            if i < s.len() {
                assert(s[i] == a);
            }
        }
    }
    assert(s.push(x).to_set() =~= s.to_set().insert(x));
}

/// Adds `t` to `v` unless it is there already.
fn add_distinct(v: &mut Vec<String>, t: String)
    requires
        views(old(v)@).no_duplicates(),
    ensures
        views(final(v)@).no_duplicates(),
        views(final(v)@).to_set() == views(old(v)@).to_set().insert(t@),
{
    if holds(v, &t) {
        assert(views(v@).to_set() =~= views(v@).to_set().insert(t@));
    } else {
        let ghost before = views(v@);
        v.push(t);
        proof {
            assert(views(v@) =~= before.push(t@));
            lemma_push_to_set(before, t@);
            assert forall|i: int, j: int|
                0 <= i < views(v@).len() && 0 <= j < views(v@).len() && i != j implies
                views(v@)[i] != views(v@)[j] by {
                if i < before.len() && j == before.len() {
                    assert(before[i] == views(v@)[i]);
                }
                if j < before.len() && i == before.len() {
                    assert(before[j] == views(v@)[j]);
                }
            }
        }
    }
}

/// The `Access-Control-Request-Headers` request header: a set of header names,
/// each listed once.
#[derive(Debug, PartialEq, Eq)]
pub struct AccessControlRequestHeaders(pub Vec<String>);

impl AccessControlRequestHeaders {
    /// Splits the value on commas and trims each piece; never fails.
    pub fn from_str(headers: &str) -> (r: Result<AccessControlRequestHeaders, ()>)
        ensures
            r is Ok,
            views(r->Ok_0.0@).no_duplicates(),
            views(r->Ok_0.0@).to_set() == listed_headers(headers@),
    {
        let n = headers.unicode_len();
        let mut names: Vec<String> = Vec::new();
        let ghost mut done: Seq<Seq<char>> = Seq::empty();
        let mut start: usize = 0;
        let mut i: usize = 0;
        proof {
            assert(headers@.subrange(0, 0) =~= Seq::<char>::empty());
            assert(split_on(Seq::<char>::empty(), ',') =~= done.push(headers@.subrange(0, 0)));
            assert(views(names@).to_set() =~= done.map_values(|t: Seq<char>| trimmed(t)).to_set());
        }
        while i < n
            invariant
                n == headers@.len(),
                start <= i <= n,
                split_on(headers@.subrange(0, i as int), ',') == done.push(
                    headers@.subrange(start as int, i as int),
                ),
                views(names@).no_duplicates(),
                views(names@).to_set() == done.map_values(|t: Seq<char>| trimmed(t)).to_set(),
            decreases n - i,
        {
            let c = headers.get_char(i);
            let ghost prefix = headers@.subrange(0, i + 1 as int);
            assert(prefix.drop_last() =~= headers@.subrange(0, i as int));
            assert(prefix.last() == c);
            if c == ',' {
                let piece = trimmed_piece(headers, start, i);
                proof {
                    let old_done = done;
                    done = done.push(headers@.subrange(start as int, i as int));
                    assert(done.map_values(|t: Seq<char>| trimmed(t)) =~= old_done.map_values(
                        |t: Seq<char>| trimmed(t),
                    ).push(piece@));
                    lemma_push_to_set(old_done.map_values(|t: Seq<char>| trimmed(t)), piece@);
                    assert(headers@.subrange(i + 1 as int, i + 1 as int) =~= Seq::<char>::empty());
                }
                add_distinct(&mut names, piece);
                start = i + 1;
            } else {
                proof {
                    assert(headers@.subrange(start as int, i as int).push(c) =~= headers@.subrange(
                        start as int,
                        i + 1 as int,
                    ));
                    assert(split_on(prefix, ',') =~= done.push(
                        headers@.subrange(start as int, i + 1 as int),
                    ));
                }
            }
            i = i + 1;
        }
        let piece = trimmed_piece(headers, start, n);
        proof {
            assert(headers@.subrange(0, n as int) =~= headers@);
            let all = done.push(headers@.subrange(start as int, n as int));
            assert(all.map_values(|t: Seq<char>| trimmed(t)) =~= done.map_values(
                |t: Seq<char>| trimmed(t),
            ).push(piece@));
            lemma_push_to_set(done.map_values(|t: Seq<char>| trimmed(t)), piece@);
        }
        add_distinct(&mut names, piece);
        Ok(AccessControlRequestHeaders(names))
    }

    /// The requested headers, from the value of the header if present.
    pub fn from_request(header: Option<&str>) -> (r: Result<AccessControlRequestHeaders, Error>)
        ensures
            header is None ==> r is Err && r->Err_0 is MissingRequestHeaders,
            header is Some ==> r is Ok && views(r->Ok_0.0@).no_duplicates() && views(
                r->Ok_0.0@,
            ).to_set() == listed_headers(header->0@),
    {
        match header {
            None => Err(Error::MissingRequestHeaders),
            Some(h) => match Self::from_str(h) {
                Ok(v) => Ok(v),
                Err(()) => Err(Error::MissingRequestHeaders),
            },
        }
    }
}


/// A response wrapped with the CORS policy that its headers are negotiated from.
///
/// The wrapped responder is carried through untouched.
pub struct CORS<R> {
    pub responder: R,
    pub allow_origin: String,
    pub allow_credentials: bool,
    pub expose_headers: Vec<String>,
    pub max_age: Option<usize>,
    pub allow_methods: Vec<Method>,
    pub allow_headers: Vec<String>,
}

/// A response body together with the CORS headers to send with it.
pub struct Response<R> {
    pub body: R,
    /// Header names and values, in the order in which they are set.
    pub headers: Vec<(String, String)>,
}

/// The view of a list of header names and values.
pub open spec fn pairs_view(v: Seq<(String, String)>) -> Seq<(Seq<char>, Seq<char>)> {
    v.map_values(|p: (String, String)| (p.0@, p.1@))
}

/// The view of a list of string slices.
pub open spec fn str_views(v: Seq<&str>) -> Seq<Seq<char>> {
    v.map_values(|s: &str| s@)
}

/// Items separated by a comma and a space.
pub open spec fn joined(items: Seq<Seq<char>>) -> Seq<char>
    decreases items.len(),
{
    if items.len() == 0 {
        Seq::empty()
    } else if items.len() == 1 {
        items[0]
    } else {
        joined(items.drop_last()) + seq![',', ' '] + items.last()
    }
}

/// `headers` with (`name`, `value`) appended when `present`.
pub open spec fn with_header(
    headers: Seq<(Seq<char>, Seq<char>)>,
    present: bool,
    name: Seq<char>,
    value: Seq<char>,
) -> Seq<(Seq<char>, Seq<char>)> {
    if present {
        headers.push((name, value))
    } else {
        headers
    }
}

/// The headers negotiated from a policy, in this order: the allowed origin,
/// whether credentials are allowed, then, each only when there is something to
/// say, the exposed headers, the allowed methods, the allowed headers and the
/// maximum age in seconds.
pub open spec fn negotiated_headers<R>(c: CORS<R>) -> Seq<(Seq<char>, Seq<char>)> {
    let base = seq![
        ("Access-Control-Allow-Origin"@, c.allow_origin@),
        (
            "Access-Control-Allow-Credentials"@,
            if c.allow_credentials {
                "true"@
            } else {
                "false"@
            },
        ),
    ];
    let exposed = with_header(
        base,
        c.expose_headers@.len() > 0,
        "Access-Control-Expose-Headers"@,
        joined(views(c.expose_headers@)),
    );
    let methods = with_header(
        exposed,
        c.allow_methods@.len() > 0,
        "Access-Control-Allow-Methods"@,
        joined(c.allow_methods@.map_values(|m: Method| method_name(m))),
    );
    let headers = with_header(
        methods,
        c.allow_headers@.len() > 0,
        "Access-Control-Allow-Headers"@,
        joined(views(c.allow_headers@)),
    );
    with_header(
        headers,
        c.max_age is Some,
        "Access-Control-Max-Age"@,
        decimal(c.max_age->0 as nat),
    )
}

/// Joins `items` with a comma and a space.
fn join_strings(items: &Vec<String>) -> (r: String)
    ensures
        r@ == joined(views(items@)),
{
    let mut r = String::new();
    let mut i: usize = 0;
    while i < items.len()
        invariant
            i <= items@.len(),
            r@ == joined(views(items@).subrange(0, i as int)),
        decreases items@.len() - i,
    {
        let ghost before = views(items@).subrange(0, i as int);
        let ghost after = views(items@).subrange(0, i + 1 as int);
        assert(after.drop_last() =~= before);
        if i > 0 {
            push_char(&mut r, ',');
            push_char(&mut r, ' ');
        }
        push_all(&mut r, items[i].as_str());
        assert(i == 0 ==> after =~= seq![items@[0]@]);
        assert(r@ =~= joined(after));
        i = i + 1;
    }
    assert(views(items@).subrange(0, items@.len() as int) =~= views(items@));
    r
}

/// Joins the names of `methods` with a comma and a space.
fn join_methods(methods: &Vec<Method>) -> (r: String)
    ensures
        r@ == joined(methods@.map_values(|m: Method| method_name(m))),
{
    let ghost names = methods@.map_values(|m: Method| method_name(m));
    let mut r = String::new();
    let mut i: usize = 0;
    while i < methods.len()
        invariant
            i <= methods@.len(),
            names == methods@.map_values(|m: Method| method_name(m)),
            r@ == joined(names.subrange(0, i as int)),
        decreases methods@.len() - i,
    {
        let ghost before = names.subrange(0, i as int);
        let ghost after = names.subrange(0, i + 1 as int);
        assert(after.drop_last() =~= before);
        if i > 0 {
            push_char(&mut r, ',');
            push_char(&mut r, ' ');
        }
        push_all(&mut r, methods[i].as_str());
        assert(i == 0 ==> after =~= seq![method_name(methods@[0])]);
        assert(r@ =~= joined(after));
        i = i + 1;
    }
    assert(names.subrange(0, methods@.len() as int) =~= names);
    r
}

/// The distinct strings among `items`.
fn distinct_strings(items: &[&str]) -> (r: Vec<String>)
    ensures
        views(r@).no_duplicates(),
        views(r@).to_set() == str_views(items@).to_set(),
{
    let mut r: Vec<String> = Vec::new();
    let mut i: usize = 0;
    proof {
        assert(views(r@).to_set() =~= str_views(items@).subrange(0, 0).to_set());
    }
    while i < items.len()
        invariant
            i <= items@.len(),
            views(r@).no_duplicates(),
            views(r@).to_set() == str_views(items@).subrange(0, i as int).to_set(),
        decreases items@.len() - i,
    {
        let t = items[i].to_owned();
        proof {
            assert(str_views(items@).subrange(0, i + 1 as int) =~= str_views(items@).subrange(
                0,
                i as int,
            ).push(t@));
            lemma_push_to_set(str_views(items@).subrange(0, i as int), t@);
        }
        add_distinct(&mut r, t);
        i = i + 1;
    }
    assert(str_views(items@).subrange(0, items@.len() as int) =~= str_views(items@));
    r
}

/// Whether `v` holds `m`.
fn holds_method(v: &Vec<Method>, m: Method) -> (r: bool)
    ensures
        r == v@.contains(m),
{
    let mut i: usize = 0;
    while i < v.len()
        invariant
            i <= v@.len(),
            forall|j: int| 0 <= j < i ==> v@[j] != m,
        decreases v@.len() - i,
    {
        if v[i] == m {
            return true;
        }
        i = i + 1;
    }
    false
}

/// The distinct methods among `methods`.
fn distinct_methods(methods: &[Method]) -> (r: Vec<Method>)
    ensures
        r@.no_duplicates(),
        r@.to_set() == methods@.to_set(),
{
    let mut r: Vec<Method> = Vec::new();
    let mut i: usize = 0;
    proof {
        assert(r@.to_set() =~= methods@.subrange(0, 0).to_set());
    }
    while i < methods.len()
        invariant
            i <= methods@.len(),
            r@.no_duplicates(),
            r@.to_set() == methods@.subrange(0, i as int).to_set(),
        decreases methods@.len() - i,
    {
        let m = methods[i];
        assert(methods@.subrange(0, i + 1 as int) =~= methods@.subrange(0, i as int).push(m));
        proof {
            lemma_push_to_set(methods@.subrange(0, i as int), m);
        }
        if !holds_method(&r, m) {
            let ghost before = r@;
            r.push(m);
            proof {
                lemma_push_to_set(before, m);
            }
            assert forall|a: int, b: int| 0 <= a < r@.len() && 0 <= b < r@.len() && a != b implies r@[a] != r@[b] by {
                if a < before.len() && b == before.len() {
                    assert(before[a] == r@[a]);
                }
                if b < before.len() && a == before.len() {
                    assert(before[b] == r@[b]);
                }
            }
        } else {
            assert(r@.to_set() =~= r@.to_set().insert(m));
        }
        i = i + 1;
    }
    assert(methods@.subrange(0, methods@.len() as int) =~= methods@);
    r
}

impl<R> CORS<R> {
    /// A policy that allows any origin.
    pub fn any(responder: R) -> (r: CORS<R>)
        ensures
            r.responder == responder,
            r.allow_origin@ == seq!['*'],
            !r.allow_credentials,
            r.expose_headers@.len() == 0,
            r.max_age is None,
            r.allow_methods@.len() == 0,
            r.allow_headers@.len() == 0,
    {
        proof {
            reveal_strlit("*");
        }
        CORS::origin(responder, "*")
    }

    /// A policy that allows only `origin`, and nothing else yet.
    pub fn origin(responder: R, origin: &str) -> (r: CORS<R>)
        ensures
            r.responder == responder,
            r.allow_origin@ == origin@,
            !r.allow_credentials,
            r.expose_headers@.len() == 0,
            r.max_age is None,
            r.allow_methods@.len() == 0,
            r.allow_headers@.len() == 0,
    {
        CORS {
            responder,
            allow_origin: origin.to_owned(),
            allow_credentials: false,
            expose_headers: Vec::new(),
            max_age: None,
            allow_methods: Vec::new(),
            allow_headers: Vec::new(),
        }
    }

    /// The same policy, with credentials allowed or not.
    pub fn credentials(self, value: bool) -> (r: CORS<R>)
        ensures
            r == (CORS { allow_credentials: value, ..self }),
    {
        CORS { allow_credentials: value, ..self }
    }

    /// The same policy, exposing exactly the headers `headers`.
    pub fn exposed_headers(self, headers: &[&str]) -> (r: CORS<R>)
        ensures
            r == (CORS { expose_headers: r.expose_headers, ..self }),
            views(r.expose_headers@).no_duplicates(),
            views(r.expose_headers@).to_set() == str_views(headers@).to_set(),
    {
        CORS { expose_headers: distinct_strings(headers), ..self }
    }

    /// The same policy, with the maximum age `value`.
    pub fn max_age(self, value: Option<usize>) -> (r: CORS<R>)
        ensures
            r == (CORS { max_age: value, ..self }),
    {
        CORS { max_age: value, ..self }
    }

    /// The same policy, allowing exactly the methods `methods`.
    pub fn methods(self, methods: &[Method]) -> (r: CORS<R>)
        ensures
            r == (CORS { allow_methods: r.allow_methods, ..self }),
            r.allow_methods@.no_duplicates(),
            r.allow_methods@.to_set() == methods@.to_set(),
    {
        CORS { allow_methods: distinct_methods(methods), ..self }
    }

    /// The same policy, allowing exactly the headers `headers`.
    pub fn headers(self, headers: &[&str]) -> (r: CORS<R>)
        ensures
            r == (CORS { allow_headers: r.allow_headers, ..self }),
            views(r.allow_headers@).no_duplicates(),
            views(r.allow_headers@).to_set() == str_views(headers@).to_set(),
    {
        CORS { allow_headers: distinct_strings(headers), ..self }
    }

    /// Wraps the responder's body with the headers negotiated from this policy.
    pub fn respond(self) -> (r: Response<R>)
        ensures
            r.body == self.responder,
            pairs_view(r.headers@) == negotiated_headers(self),
    {
        let ghost c = self;
        let mut headers: Vec<(String, String)> = Vec::new();
        headers.push(("Access-Control-Allow-Origin".to_owned(), self.allow_origin));
        let credentials = if self.allow_credentials {
            "true".to_owned()
        } else {
            "false".to_owned()
        };
        headers.push(("Access-Control-Allow-Credentials".to_owned(), credentials));
        assert(pairs_view(headers@) =~= seq![
            ("Access-Control-Allow-Origin"@, c.allow_origin@),
            (
                "Access-Control-Allow-Credentials"@,
                if c.allow_credentials {
                    "true"@
                } else {
                    "false"@
                },
            ),
        ]);
        let ghost h0 = pairs_view(headers@);
        if self.expose_headers.len() > 0 {
            headers.push(("Access-Control-Expose-Headers".to_owned(), join_strings(&self.expose_headers)));
        }
        assert(pairs_view(headers@) =~= with_header(
            h0,
            c.expose_headers@.len() > 0,
            "Access-Control-Expose-Headers"@,
            joined(views(c.expose_headers@)),
        ));
        let ghost h1 = pairs_view(headers@);
        if self.allow_methods.len() > 0 {
            headers.push(("Access-Control-Allow-Methods".to_owned(), join_methods(&self.allow_methods)));
        }
        assert(pairs_view(headers@) =~= with_header(
            h1,
            c.allow_methods@.len() > 0,
            "Access-Control-Allow-Methods"@,
            joined(c.allow_methods@.map_values(|m: Method| method_name(m))),
        ));
        let ghost h2 = pairs_view(headers@);
        if self.allow_headers.len() > 0 {
            headers.push(("Access-Control-Allow-Headers".to_owned(), join_strings(&self.allow_headers)));
        }
        assert(pairs_view(headers@) =~= with_header(
            h2,
            c.allow_headers@.len() > 0,
            "Access-Control-Allow-Headers"@,
            joined(views(c.allow_headers@)),
        ));
        let ghost h3 = pairs_view(headers@);
        match self.max_age {
            Some(n) => {
                headers.push(("Access-Control-Max-Age".to_owned(), decimal_text(n as u64)));
            },
            None => {},
        }
        assert(pairs_view(headers@) =~= with_header(
            h3,
            c.max_age is Some,
            "Access-Control-Max-Age"@,
            decimal(c.max_age->0 as nat),
        ));
        Response { body: self.responder, headers }
    }
}


/// Which origins an endpoint allows.
#[derive(Debug, PartialEq, Eq)]
pub enum AllowedOrigins {
    /// Every origin.
    Any,
    /// Exactly these origins, compared as whole strings.
    Listed(Vec<String>),
}

/// The CORS policy of a mounted endpoint.
#[derive(Debug, PartialEq, Eq)]
pub struct Options {
    pub allowed_origins: AllowedOrigins,
    pub allowed_methods: Vec<Method>,
    pub allowed_headers: Vec<String>,
}

/// The value of `Access-Control-Allow-Origin` for a request from `origin`:
/// `*` when any origin is allowed, else the origin itself when it is listed,
/// else none.
pub open spec fn origin_value(allowed: AllowedOrigins, origin: Seq<char>) -> Option<Seq<char>> {
    match allowed {
        AllowedOrigins::Any => Some(seq!['*']),
        AllowedOrigins::Listed(list) => if views(list@).contains(origin) {
            Some(origin)
        } else {
            None
        },
    }
}

/// Whether `c` is the policy of `opts` for `body` answering `origin`: the
/// negotiated origin, no credentials, nothing exposed, no maximum age, and the
/// endpoint's methods and headers, each once.
pub open spec fn is_policy_for<R>(opts: Options, origin: Seq<char>, body: R, c: CORS<R>) -> bool {
    &&& c.responder == body
    &&& Some(c.allow_origin@) == origin_value(opts.allowed_origins, origin)
    &&& !c.allow_credentials
    &&& c.expose_headers@.len() == 0
    &&& c.max_age is None
    &&& c.allow_methods@.no_duplicates()
    &&& c.allow_methods@.to_set() == opts.allowed_methods@.to_set()
    &&& views(c.allow_headers@).no_duplicates()
    &&& views(c.allow_headers@).to_set() == views(opts.allowed_headers@).to_set()
}

/// The value of `Access-Control-Allow-Origin` for a request from `origin`.
pub fn allowed_origin(allowed: &AllowedOrigins, origin: &Origin) -> (r: Option<String>)
    ensures
        r is Some <==> origin_value(*allowed, origin.0@) is Some,
        r is Some ==> r->0@ == origin_value(*allowed, origin.0@)->0,
{
    match allowed {
        AllowedOrigins::Any => {
            proof {
                reveal_strlit("*");
            }
            Some("*".to_owned())
        },
        AllowedOrigins::Listed(list) => {
            if holds(list, &origin.0) {
                Some(origin.0.clone())
            } else {
                None
            }
        },
    }
}

/// The distinct strings among `items`.
fn distinct_owned(items: &Vec<String>) -> (r: Vec<String>)
    ensures
        views(r@).no_duplicates(),
        views(r@).to_set() == views(items@).to_set(),
{
    let mut r: Vec<String> = Vec::new();
    let mut i: usize = 0;
    proof {
        assert(views(r@).to_set() =~= views(items@).subrange(0, 0).to_set());
    }
    while i < items.len()
        invariant
            i <= items@.len(),
            views(r@).no_duplicates(),
            views(r@).to_set() == views(items@).subrange(0, i as int).to_set(),
        decreases items@.len() - i,
    {
        let t = items[i].clone();
        proof {
            assert(views(items@).subrange(0, i + 1 as int) =~= views(items@).subrange(
                0,
                i as int,
            ).push(t@));
            lemma_push_to_set(views(items@).subrange(0, i as int), t@);
        }
        add_distinct(&mut r, t);
        i = i + 1;
    }
    assert(views(items@).subrange(0, items@.len() as int) =~= views(items@));
    r
}

impl Options {
    /// The policy advertised for `body` in answer to a request from `origin`.
    /// Where the origin is not allowed, `body` comes back as it is, to be sent
    /// without CORS headers.
    pub fn policy<R>(&self, body: R, origin: &Origin) -> (r: Result<CORS<R>, R>)
        ensures
            r is Ok <==> origin_value(self.allowed_origins, origin.0@) is Some,
            r is Ok ==> is_policy_for(*self, origin.0@, body, r->Ok_0),
            r is Err ==> r->Err_0 == body,
    {
        match allowed_origin(&self.allowed_origins, origin) {
            None => Err(body),
            Some(value) => Ok(CORS {
                responder: body,
                allow_origin: value,
                allow_credentials: false,
                expose_headers: Vec::new(),
                max_age: None,
                allow_methods: distinct_methods(self.allowed_methods.as_slice()),
                allow_headers: distinct_owned(&self.allowed_headers),
            }),
        }
    }

    /// The answer to a preflight request: the endpoint's policy with no body.
    /// The requested method and headers are not checked against the policy,
    /// which is advertised, not enforced.
    pub fn preflight(
        &self,
        origin: &Origin,
        method: &AccessControlRequestMethod,
        headers: Option<&AccessControlRequestHeaders>,
    ) -> (r: Option<CORS<()>>)
        ensures
            r is Some <==> origin_value(self.allowed_origins, origin.0@) is Some,
            r is Some ==> is_policy_for(*self, origin.0@, (), r->0),
    {
        match self.policy((), origin) {
            Ok(c) => Some(c),
            Err(()) => None,
        }
    }
}

/// A policy that allows any origin and has not been changed since sends
/// `Access-Control-Allow-Origin: *` and `Access-Control-Allow-Credentials: false`,
/// and nothing else.
pub proof fn lemma_any_policy_defaults<R>(c: CORS<R>)
    requires
        c.allow_origin@ == seq!['*'],
        !c.allow_credentials,
        c.expose_headers@.len() == 0,
        c.max_age is None,
        c.allow_methods@.len() == 0,
        c.allow_headers@.len() == 0,
    ensures
        negotiated_headers(c) == seq![
            ("Access-Control-Allow-Origin"@, seq!['*']),
            ("Access-Control-Allow-Credentials"@, "false"@),
        ],
{
}

} // verus!
