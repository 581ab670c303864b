//! What the library takes from other crates and from the standard library on trust.
//!
//! Every function here makes one outside call and converts its arguments and result. Its
//! contract is believed, not proved.
use std::time::Instant;
use vstd::prelude::*;
use vstd::utf8::encode_utf8;
use crate::text::{
    contains, decimal, is_digit, lower, opt_text, parted, parted_at_last, trimmed_end,
    without_trailing,
};

verus! {

// ---------------------------------------------------------------------------------------------
// The clock
// ---------------------------------------------------------------------------------------------
/// `std::time::Instant`, a reading of a clock that does not run backwards. Opaque.
#[verifier::external_type_specification]
#[verifier::external_body]
pub struct ExInstant(std::time::Instant);

/// The most nanoseconds that a `std::time::Duration` holds: `u64::MAX` seconds and 999999999
/// nanoseconds.
pub const MAX_NANOS: u128 = 18_446_744_073_709_551_615_999_999_999;

/// `std::time::Instant::now` reads the clock. Nothing is claimed of the reading.
#[verifier::external_body]
pub(crate) fn clock_reading() -> (r: Instant) {
    Instant::now()
}

/// `std::time::Instant::elapsed`, in nanoseconds: the time since an earlier reading. Of the
/// result only the bound is claimed that `std::time::Duration` documents.
#[verifier::external_body]
pub(crate) fn nanos_since(start: &Instant) -> (r: u128)
    ensures
        r <= MAX_NANOS,
{
    start.elapsed().as_nanos()
}

/// `chrono::Utc::now`, in milliseconds since 1970 (`DateTime::timestamp_millis`). Nothing is
/// claimed of the reading.
#[verifier::external_body]
pub(crate) fn utc_millis() -> (r: i64) {
    chrono::Utc::now().timestamp_millis()
}

// ---------------------------------------------------------------------------------------------
// Addresses
// ---------------------------------------------------------------------------------------------
/// The parts of an address, as the `url` crate reports them.
#[derive(Debug)]
pub struct UrlParts {
    /// The address as the crate writes it down.
    pub href: String,
    pub scheme: String,
    /// Who asks; empty where nobody is named.
    pub username: String,
    pub password: Option<String>,
    pub host: Option<String>,
    pub port: Option<u16>,
    pub path: String,
    pub query: Option<String>,
    pub fragment: Option<String>,
    /// Whether no address can be relative to this one (`Url::cannot_be_a_base`).
    pub opaque: bool,
}

/// The parts of an address as texts.
pub struct UrlModel {
    pub href: Seq<char>,
    pub scheme: Seq<char>,
    pub username: Seq<char>,
    pub password: Option<Seq<char>>,
    pub host: Option<Seq<char>>,
    pub port: Option<u16>,
    pub path: Seq<char>,
    pub query: Option<Seq<char>>,
    pub fragment: Option<Seq<char>>,
    pub opaque: bool,
}

impl View for UrlParts {
    type V = UrlModel;

    open spec fn view(&self) -> UrlModel {
        UrlModel {
            href: self.href@,
            scheme: self.scheme@,
            username: self.username@,
            password: opt_text(self.password),
            host: opt_text(self.host),
            port: self.port,
            path: self.path@,
            query: opt_text(self.query),
            fragment: opt_text(self.fragment),
            opaque: self.opaque,
        }
    }
}

/// What `url::Url::parse` makes of a text: the parts of the address, or the text of the error.
pub uninterp spec fn url_parsed(text: Seq<char>) -> Result<UrlModel, Seq<char>>;

/// The result of parsing, as texts.
pub open spec fn parse_result(r: Result<UrlParts, String>) -> Result<UrlModel, Seq<char>> {
    match r {
        Ok(parts) => Ok(parts@),
        Err(message) => Err(message@),
    }
}

/// The highest position in an address that the `url` crate can count: it counts in 32 bits. Where
/// it reads an address it refuses one with a higher position; where it changes one it panics.
pub const LAST_URL_POSITION: u64 = 0xffff_ffff;

/// An address of the web.
pub open spec fn web_address(u: UrlModel) -> bool {
    u.scheme == "http"@ || u.scheme == "https"@
}

/// Parsing a text gives an address of the web.
pub open spec fn reads_as(text: Seq<char>, u: UrlModel) -> bool {
    url_parsed(text) == Ok::<UrlModel, Seq<char>>(u) && web_address(u)
}

/// The port that goes without saying for an address of the web.
pub open spec fn usual_port(u: UrlModel) -> u16 {
    if u.scheme == "http"@ {
        80u16
    } else {
        443u16
    }
}

/// A text behind a mark; nothing if there is none.
pub open spec fn marked(mark: Seq<char>, text: Option<Seq<char>>) -> Seq<char> {
    match text {
        Some(text) => mark + text,
        None => seq![],
    }
}

/// Who asks, as an address of the web names them.
pub open spec fn user_written(u: UrlModel) -> Seq<char> {
    if u.username.len() == 0 && u.password is None {
        seq![]
    } else {
        u.username + marked(":"@, u.password) + "@"@
    }
}

/// An address of the web as it is written down, up to its path.
pub open spec fn site_written(u: UrlModel) -> Seq<char> {
    u.scheme + "://"@ + user_written(u) + marked(""@, u.host) + marked(
        ":"@,
        match u.port {
            Some(port) => Some(decimal(port as nat)),
            None => None,
        },
    )
}

/// An address of the web as it is written down, up to its fragment.
pub open spec fn page_written(u: UrlModel) -> Seq<char> {
    site_written(u) + u.path + marked("?"@, u.query)
}

/// An address of the web as it is written down.
pub open spec fn written(u: UrlModel) -> Seq<char> {
    page_written(u) + marked("#"@, u.fragment)
}

/// A host name that is written as it is: at most 253 small letters of ASCII, digits, hyphens and
/// dots, not in the coded form that stands for other letters, and with letters alone behind its
/// last dot.
pub open spec fn plain_host(host: Seq<char>) -> bool {
    &&& host.len() <= 253
    &&& forall|i: int| 0 <= i < host.len() ==> plain_in_hosts(#[trigger] host[i])
    &&& !contains(host, "xn--"@)
    &&& parted_at_last(host, "."@) matches Some((_, last)) && last.len() > 0 && forall|i: int|
        0 <= i < last.len() ==> 'a' <= #[trigger] last[i] <= 'z'
}

/// A character of a plain host name.
pub open spec fn plain_in_hosts(c: char) -> bool {
    'a' <= c <= 'z' || '0' <= c <= '9' || c == '-' || c == '.'
}

/// A character that is written in the path of an address as it is.
pub open spec fn plain_in_paths(c: char) -> bool {
    '!' <= c <= '~' && c != '"' && c != '#' && c != '<' && c != '>' && c != '?' && c != '`' && c
        != '{' && c != '}'
}

/// A character that is written in the query of an address as it is.
pub open spec fn plain_in_queries(c: char) -> bool {
    '!' <= c <= '~' && c != '"' && c != '#' && c != '<' && c != '>' && c != '\''
}

/// A character that is written in the fragment of an address as it is.
pub open spec fn plain_in_fragments(c: char) -> bool {
    '!' <= c <= '~' && c != '"' && c != '<' && c != '>' && c != '`'
}

/// The most characters that a path takes in an address: a character that is not written as it is
/// takes at most twelve.
pub open spec fn path_room(path: Seq<char>) -> nat {
    if forall|i: int| 0 <= i < path.len() ==> plain_in_paths(#[trigger] path[i]) {
        path.len()
    } else {
        12 * path.len()
    }
}

/// The most characters that a query takes in an address.
pub open spec fn query_room(query: Seq<char>) -> nat {
    if forall|i: int| 0 <= i < query.len() ==> plain_in_queries(#[trigger] query[i]) {
        query.len()
    } else {
        12 * query.len()
    }
}

/// The length of a text, if there is one.
pub open spec fn opt_len(text: Option<Seq<char>>) -> Option<int> {
    match text {
        Some(text) => Some(text.len() as int),
        None => None,
    }
}

/// The length of a part of an address with the mark in front of it.
pub open spec fn marked_len(len: Option<int>) -> int {
    match len {
        Some(len) => 1 + len,
        None => 0,
    }
}

/// The length of an address up to its path.
pub open spec fn site_len(u: UrlModel) -> int {
    u.href.len() - u.path.len() - marked_len(opt_len(u.query)) - marked_len(opt_len(u.fragment))
}

/// The positions in an address can be counted, by the lengths of its parts: where its path begins,
/// and where its query and its fragment begin if it has them.
pub open spec fn positions_fit(site: int, path: int, query: Option<int>, fragment: bool) -> bool {
    &&& site <= LAST_URL_POSITION
    &&& query is Some ==> site + path <= LAST_URL_POSITION
    &&& fragment ==> site + path + marked_len(query) <= LAST_URL_POSITION
}

/// The positions in an address can be counted.
pub open spec fn countable(u: UrlModel) -> bool {
    positions_fit(site_len(u), u.path.len() as int, opt_len(u.query), u.fragment is Some)
}

/// An address, if a text is one, can take a host: its positions can be counted then.
pub open spec fn takes_host(text: Seq<char>, host: Seq<char>) -> bool {
    url_parsed(text) matches Ok(u) ==> positions_fit(
        site_len(u) + host.len() - (match u.host {
            Some(host) => host.len() as int,
            None => -2,
        }),
        u.path.len() as int,
        opt_len(u.query),
        u.fragment is Some,
    )
}

/// The most characters of a path in an address: a slash or another mark may be put in front of one
/// that does not begin with a slash, and of one in an address without a host.
pub open spec fn path_length(u: UrlModel, path: Seq<char>) -> int {
    if u.host is Some && path.len() > 0 && path[0] == '/' {
        path_room(path) as int
    } else {
        (path_room(path) + 4) as int
    }
}

/// An address, if a text is one, can take a path. The ends of the old path and of the new one are
/// counted also where nothing follows them.
pub open spec fn takes_path(text: Seq<char>, path: Seq<char>) -> bool {
    url_parsed(text) matches Ok(u) ==> {
        &&& site_len(u) + u.path.len() <= LAST_URL_POSITION
        &&& site_len(u) + path_length(u, path) <= LAST_URL_POSITION
        &&& positions_fit(
            site_len(u),
            path_length(u, path),
            opt_len(u.query),
            u.fragment is Some,
        )
    }
}

/// An address, if a text is one, can take any port.
pub open spec fn takes_port(text: Seq<char>) -> bool {
    url_parsed(text) matches Ok(u) ==> positions_fit(
        site_len(u) + 6,
        u.path.len() as int,
        opt_len(u.query),
        u.fragment is Some,
    )
}

/// An address, if a text is one, can take a query.
pub open spec fn takes_query(text: Seq<char>, query: Option<Seq<char>>) -> bool {
    url_parsed(text) matches Ok(u) ==> positions_fit(
        site_len(u),
        u.path.len() as int,
        match query {
            Some(query) => Some(query_room(query) as int),
            None => None,
        },
        u.fragment is Some,
    )
}

/// An address, if a text is one, can take a fragment.
pub open spec fn takes_fragment(text: Seq<char>, fragment: Option<Seq<char>>) -> bool {
    url_parsed(text) matches Ok(u) ==> positions_fit(
        site_len(u),
        u.path.len() as int,
        opt_len(u.query),
        fragment is Some,
    )
}

/// A path of slashes and small letters.
pub open spec fn made_of_names(path: Seq<char>) -> bool {
    path.len() > 0 ==> path[0] == '/' && forall|i: int|
        0 <= i < path.len() ==> (#[trigger] path[i] == '/' || 'a' <= path[i] <= 'z')
}

/// A path that is written in an address as it is: the root, the path of an address of the web, also
/// without the slashes at its end or with names in front of it.
pub open spec fn kept_path(path: Seq<char>) -> bool {
    path == "/"@ || exists|s: Seq<char>, u: UrlModel, front: Seq<char>| #[trigger]
        reads_as(s, u) && #[trigger] made_of_names(front) && (path == front + u.path || (path.len()
            > 0 && path == without_trailing(u.path, '/')))
}

/// A query that is written in an address as it is.
pub open spec fn kept_query(query: Option<Seq<char>>) -> bool {
    query matches Some(query) ==> forall|i: int|
        0 <= i < query.len() ==> plain_in_queries(#[trigger] query[i])
}

/// A fragment that is written in an address as it is.
pub open spec fn kept_fragment(fragment: Option<Seq<char>>) -> bool {
    fragment matches Some(fragment) ==> forall|i: int|
        0 <= i < fragment.len() ==> plain_in_fragments(#[trigger] fragment[i])
}

/// The parts of an address are written as they are, and its positions can be counted.
pub open spec fn is_kept(u: UrlModel) -> bool {
    &&& web_address(u)
    &&& u.href == written(u)
    &&& countable(u)
    &&& u.port != Some(usual_port(u))
    &&& kept_path(u.path)
    &&& kept_query(u.query)
    &&& kept_fragment(u.fragment)
    &&& !u.opaque
}

/// Addresses with the scheme and the user of an address, a host, and any port, path, query and
/// fragment that are written as they are, are read as they were written.
pub open spec fn readable_at(u: UrlModel, host: Option<Seq<char>>) -> bool {
    forall|v: UrlModel|
        #![trigger is_kept(v)]
        is_kept(v) && v.scheme == u.scheme && v.username == u.username && v.password == u.password
            && v.host == host ==> reads_as(v.href, v)
}

/// What is claimed of an address that was read. The path of one with a host is empty or begins with
/// a slash, and holds neither a question mark nor a number sign. One of the web has a host and a
/// path, is written as its parts say, with a query and a fragment that are written as they are,
/// does not show the port that goes without saying, and could be read at any plain host.
pub open spec fn is_written(parsed: Result<UrlModel, Seq<char>>) -> bool {
    parsed matches Ok(u) ==> {
        &&& u.host is Some ==> {
            &&& u.path.len() > 0 ==> u.path[0] == '/'
            &&& forall|i: int| 0 <= i < u.path.len() ==> #[trigger] u.path[i] != '?' && u.path[i] != '#'
        }
        &&& web_address(u) ==> {
            &&& u.host is Some
            &&& u.path.len() > 0
            &&& forall|i: int| 0 <= i < u.path.len() ==> plain_in_paths(#[trigger] u.path[i])
            &&& kept_query(u.query)
            &&& kept_fragment(u.fragment)
            &&& u.href == written(u)
            &&& countable(u)
            &&& u.port != Some(usual_port(u))
            &&& !u.opaque
            &&& forall|host: Seq<char>| #[trigger] plain_host(host) ==> readable_at(u, Some(host))
        }
    }
}

/// The scheme and the host of an address of the web.
pub open spec fn origin_of_address(text: Seq<char>) -> bool {
    exists|s: Seq<char>, u: UrlModel| #[trigger]
        reads_as(s, u) && u.host is Some && text == u.scheme + "://"@ + u.host->0
}

/// An address of the web that is no more than a scheme, a host and a path.
pub open spec fn is_bare(u: UrlModel) -> bool {
    &&& web_address(u)
    &&& u.username.len() == 0
    &&& u.password is None
    &&& u.host is Some
    &&& u.port is None
    &&& u.query is None
    &&& u.fragment is None
    &&& !u.opaque
}

/// A text, if it was read, was read as the address of the web whose scheme and host it is, and
/// addresses at that host are read as they were written.
pub open spec fn is_origin(text: Seq<char>, parsed: Result<UrlModel, Seq<char>>) -> bool {
    parsed matches Ok(u) ==> is_bare(u) && text == u.scheme + "://"@ + u.host->0 && u.path == "/"@
        && readable_at(u, u.host)
}

/// The address of a page at a plain host, by its host and path.
pub open spec fn page_at(host: Seq<char>, path: Seq<char>) -> Seq<char> {
    "https://"@ + host + path
}

/// A text is the address of a page at a plain host.
pub open spec fn is_page(text: Seq<char>, host: Seq<char>, path: Seq<char>) -> bool {
    &&& plain_host(host)
    &&& path.len() > 0 ==> path[0] == '/'
    &&& forall|i: int| 0 <= i < path.len() ==> #[trigger] path[i] != '?' && path[i] != '#'
    &&& text == page_at(host, path)
}

/// The address of a page at a plain host is read, as an address at that host; and with its path, if
/// that is written as it is.
pub open spec fn is_read_as_page(text: Seq<char>, parsed: Result<UrlModel, Seq<char>>) -> bool {
    forall|host: Seq<char>, path: Seq<char>| #[trigger]
        is_page(text, host, path) ==> (parsed matches Ok(u) && is_bare(u) && u.scheme == "https"@
            && u.host == Some(host) && (kept_path(path) ==> u.path == path))
}

/// `url::Url::parse` reads an address. The result is a function of the text; which one, the name
/// `url_parsed` leaves open. Three things are claimed of it: how an address that was read is
/// written and that it can be read at another host (`is_written`), that the scheme and the host of
/// an address are read as such if they are read at all (`is_origin`; a host with a very long name
/// in other letters than those of ASCII is written in a form that is not read again), and that the
/// address of a page at a plain host is read (`is_read_as_page`).
#[verifier::external_body]
pub(crate) fn parse_url(text: &str) -> (r: Result<UrlParts, String>)
    ensures
        parse_result(r) == url_parsed(text@),
        is_written(parse_result(r)),
        origin_of_address(text@) ==> is_origin(text@, parse_result(r)),
        is_read_as_page(text@, parse_result(r)),
{
    url::Url::parse(text).map_err(|e| e.to_string()).map(|u| UrlParts {
        href: u.as_str().to_string(),
        scheme: u.scheme().to_string(),
        username: u.username().to_string(),
        password: u.password().map(|s| s.to_string()),
        host: u.host_str().map(|s| s.to_string()),
        port: u.port(),
        path: u.path().to_string(),
        query: u.query().map(|s| s.to_string()),
        fragment: u.fragment().map(|s| s.to_string()),
        opaque: u.cannot_be_a_base(),
    })
}

/// The address that a text is relative to another, as `url::Url::join` makes it, or the text of
/// the error.
pub uninterp spec fn url_joined(base: Seq<char>, path: Seq<char>) -> Result<Seq<char>, Seq<char>>;

/// The result of joining, as texts.
pub open spec fn join_result(r: Result<String, String>) -> Result<Seq<char>, Seq<char>> {
    match r {
        Ok(href) => Ok(href@),
        Err(message) => Err(message@),
    }
}

/// `url::Url::join` reads a text relative to an address. The result is a function of the two
/// texts; which one, the name `url_joined` leaves open.
#[verifier::external_body]
pub(crate) fn join_url(base: &str, path: &str) -> (r: Result<String, String>)
    ensures
        join_result(r) == url_joined(base@, path@),
{
    match url::Url::parse(base).and_then(|url| url.join(path)) {
        Ok(url) => Ok(url.to_string()),
        Err(error) => Err(error.to_string()),
    }
}

/// The address in a text with another host, as `url::Url::set_host` changes it; `None` if the
/// crate refuses the host.
pub uninterp spec fn url_with_host(text: Seq<char>, host: Seq<char>) -> Option<Seq<char>>;

/// The address in a text with a plain host: one of the web is written with that host and with all
/// its other parts.
pub open spec fn at_host(text: Seq<char>, host: Seq<char>) -> Option<Seq<char>> {
    match url_parsed(text) {
        Ok(u) => if web_address(u) {
            Some(written(UrlModel { host: Some(host), ..u }))
        } else {
            url_with_host(text, host)
        },
        Err(_) => None,
    }
}

/// `url::Url::set_host` replaces the host of an address by a plain one. What comes of an address of
/// the web is stated; of others the result is a function of the two texts, and the name
/// `url_with_host` leaves open which one.
#[verifier::external_body]
pub(crate) fn set_url_host(text: &str, host: &str) -> (r: Option<String>)
    requires
        plain_host(host@),
        takes_host(text@, host@),
    ensures
        opt_text(r) == url_with_host(text@, host@),
        opt_text(r) == at_host(text@, host@),
{
    let mut url = url::Url::parse(text).ok()?;
    url.set_host(Some(host)).ok()?;
    Some(url.to_string())
}

/// The address in a text with another path, as `url::Url::set_path` changes it.
pub uninterp spec fn url_with_path(text: Seq<char>, path: Seq<char>) -> Option<Seq<char>>;

/// The address in a text with another path: one of the web is written with that path, if it is
/// written as it is, or with the root if it is empty, and with all its other parts.
pub open spec fn at_path(text: Seq<char>, path: Seq<char>) -> Option<Seq<char>> {
    match url_parsed(text) {
        Ok(u) => if web_address(u) && path.len() == 0 {
            Some(written(UrlModel { path: "/"@, ..u }))
        } else if web_address(u) && kept_path(path) {
            Some(written(UrlModel { path, ..u }))
        } else {
            url_with_path(text, path)
        },
        Err(_) => None,
    }
}

/// `url::Url::set_path` replaces the path of an address. What comes of an address of the web and a
/// path that is written as it is, is stated; otherwise the result is a function of the two texts,
/// and the name `url_with_path` leaves open which one.
#[verifier::external_body]
pub(crate) fn set_url_path(text: &str, path: &str) -> (r: Option<String>)
    requires
        takes_path(text@, path@),
    ensures
        opt_text(r) == url_with_path(text@, path@),
        opt_text(r) == at_path(text@, path@),
{
    let mut url = url::Url::parse(text).ok()?;
    url.set_path(path);
    Some(url.to_string())
}

/// The address in a text with another port, as `url::Url::set_port` changes it; `None` if the
/// address takes no port.
pub uninterp spec fn url_with_port(text: Seq<char>, port: Option<u16>) -> Option<Seq<char>>;

/// The address in a text with another port, or without one: one of the web is written with that
/// port, unless it goes without saying, and with all its other parts.
pub open spec fn at_port(text: Seq<char>, port: Option<u16>) -> Option<Seq<char>> {
    match url_parsed(text) {
        Ok(u) => if web_address(u) {
            Some(
                written(
                    UrlModel {
                        port: if port == Some(usual_port(u)) {
                            None
                        } else {
                            port
                        },
                        ..u
                    },
                ),
            )
        } else {
            url_with_port(text, port)
        },
        Err(_) => None,
    }
}

/// `url::Url::set_port` replaces or takes away the port of an address. What comes of an address of
/// the web is stated; of others the result is a function of the text and the port, and the name
/// `url_with_port` leaves open which one.
#[verifier::external_body]
pub(crate) fn set_url_port(text: &str, port: Option<u16>) -> (r: Option<String>)
    requires
        takes_port(text@),
    ensures
        opt_text(r) == url_with_port(text@, port),
        opt_text(r) == at_port(text@, port),
{
    let mut url = url::Url::parse(text).ok()?;
    url.set_port(port).ok()?;
    Some(url.to_string())
}

/// The address in a text with another query, as `url::Url::set_query` changes it.
pub uninterp spec fn url_with_query(text: Seq<char>, query: Option<Seq<char>>) -> Option<Seq<char>>;

/// The address in a text with another query, or without one: one of the web is written with that
/// query, if it is written as it is, and with all its other parts.
pub open spec fn at_query(text: Seq<char>, query: Option<Seq<char>>) -> Option<Seq<char>> {
    match url_parsed(text) {
        Ok(u) => if web_address(u) && kept_query(query) {
            Some(written(UrlModel { query, ..u }))
        } else {
            url_with_query(text, query)
        },
        Err(_) => None,
    }
}

/// `url::Url::set_query` replaces or takes away the query of an address. What comes of an address
/// of the web and a query that is written as it is, is stated; otherwise the result is a function
/// of the text and the query, and the name `url_with_query` leaves open which one. Whatever the query
/// is, the address of a page at a plain host is one of the same page.
#[verifier::external_body]
pub(crate) fn set_url_query(text: &str, query: &Option<String>) -> (r: Option<String>)
    requires
        takes_query(text@, opt_text(*query)),
    ensures
        opt_text(r) == url_with_query(text@, opt_text(*query)),
        opt_text(r) == at_query(text@, opt_text(*query)),
        url_parsed(text@) matches Ok(u) ==> is_bare(u) && plain_host(u.host->0) ==> is_at_site(
            opt_text(r),
            u,
        ),
{
    let mut url = url::Url::parse(text).ok()?;
    url.set_query(query.as_deref());
    Some(url.to_string())
}

/// A text is read as an address of the web at the site of another one.
pub open spec fn is_at_site(text: Option<Seq<char>>, u: UrlModel) -> bool {
    text matches Some(t) && url_parsed(t) matches Ok(v) && v == (UrlModel {
        href: t,
        query: v.query,
        ..u
    })
}

/// The address in a text with another fragment, as `url::Url::set_fragment` changes it.
pub uninterp spec fn url_with_fragment(
    text: Seq<char>,
    fragment: Option<Seq<char>>,
) -> Option<Seq<char>>;

/// The address in a text with another fragment, or without one: one of the web is written with that
/// fragment, if it is written as it is, and with all its other parts.
pub open spec fn at_fragment(text: Seq<char>, fragment: Option<Seq<char>>) -> Option<Seq<char>> {
    match url_parsed(text) {
        Ok(u) => if web_address(u) && kept_fragment(fragment) {
            Some(written(UrlModel { fragment, ..u }))
        } else {
            url_with_fragment(text, fragment)
        },
        Err(_) => None,
    }
}

/// `url::Url::set_fragment` replaces or takes away the fragment of an address. What comes of an
/// address of the web and a fragment that is written as it is, is stated; otherwise the result is a
/// function of the text and the fragment, and the name `url_with_fragment` leaves open which one.
#[verifier::external_body]
pub(crate) fn set_url_fragment(text: &str, fragment: &Option<String>) -> (r: Option<String>)
    requires
        takes_fragment(text@, opt_text(*fragment)),
    ensures
        opt_text(r) == url_with_fragment(text@, opt_text(*fragment)),
        opt_text(r) == at_fragment(text@, opt_text(*fragment)),
{
    let mut url = url::Url::parse(text).ok()?;
    url.set_fragment(fragment.as_deref());
    Some(url.to_string())
}

// ---------------------------------------------------------------------------------------------
// Encoding texts for addresses
// ---------------------------------------------------------------------------------------------
/// A letter or a digit of ASCII.
pub open spec fn alphanumeric(b: u8) -> bool {
    48 <= b <= 57 || 65 <= b <= 90 || 97 <= b <= 122
}

/// A digit of base sixteen, with capitals.
pub open spec fn hex_digit(n: int) -> char {
    if n < 10 {
        (48 + n) as u8 as char
    } else {
        (55 + n) as u8 as char
    }
}

/// A byte as a percent sign and two digits of base sixteen.
pub open spec fn percent(b: u8) -> Seq<char> {
    seq!['%', hex_digit(b as int / 16), hex_digit(b as int % 16)]
}

/// Bytes with all but letters, digits and `-`, `_`, `.`, `~` written with percent signs.
pub open spec fn percent_encoded(bytes: Seq<u8>) -> Seq<char>
    decreases bytes.len(),
{
    if bytes.len() == 0 {
        seq![]
    } else {
        let b = bytes.last();
        percent_encoded(bytes.drop_last()) + (if alphanumeric(b) || b == 45 || b == 95 || b == 46 || b
            == 126 {
            seq![b as char]
        } else {
            percent(b)
        })
    }
}

/// `urlencoding::encode` writes every byte of a text, except letters, digits and `-`, `_`, `.`,
/// `~`, as a percent sign and two digits of base sixteen with capitals.
#[verifier::external_body]
pub(crate) fn percent_encode(text: &str) -> (r: String)
    ensures
        r@ == percent_encoded(encode_utf8(text@)),
{
    urlencoding::encode(text).into_owned()
}

/// Bytes in the form of a query: a space as a plus sign, letters, digits and `*`, `-`, `.`, `_`
/// as they are, the rest with percent signs.
pub open spec fn form_encoded(bytes: Seq<u8>) -> Seq<char>
    decreases bytes.len(),
{
    if bytes.len() == 0 {
        seq![]
    } else {
        let b = bytes.last();
        form_encoded(bytes.drop_last()) + (if b == 32 {
            seq!['+']
        } else if alphanumeric(b) || b == 42 || b == 45 || b == 46 || b == 95 {
            seq![b as char]
        } else {
            percent(b)
        })
    }
}

/// `url::form_urlencoded::Serializer::append_pair` on an empty target writes a name, an equals
/// sign and a value, both in the form of a query.
#[verifier::external_body]
pub(crate) fn form_pair(name: &str, value: &str) -> (r: String)
    ensures
        r@ == form_encoded(encode_utf8(name@)).push('=') + form_encoded(encode_utf8(value@)),
{
    url::form_urlencoded::Serializer::new(String::new()).append_pair(name, value).finish()
}

// ---------------------------------------------------------------------------------------------
// Patterns
// ---------------------------------------------------------------------------------------------
/// The groups of one match, the whole match first; `None` for a group that took no part.
pub open spec fn group_texts(groups: Seq<Option<String>>) -> Seq<Option<Seq<char>>> {
    groups.map_values(|g: Option<String>| opt_text(g))
}

/// The groups of matches.
pub open spec fn match_texts(matches: Seq<Vec<Option<String>>>) -> Seq<Seq<Option<Seq<char>>>> {
    matches.map_values(|m: Vec<Option<String>>| group_texts(m@))
}

/// The matches of a pattern in a text, from left to right and without overlap, as the `regex`
/// crate finds them; none for a pattern that it refuses.
pub uninterp spec fn regex_found(
    pattern: Seq<char>,
    case_insensitive: bool,
    text: Seq<char>,
) -> Seq<Seq<Option<Seq<char>>>>;

/// `regex::Regex::captures_iter` finds the matches of a pattern. The result is a function of the
/// pattern, the text and whether case counts; which one, the name `regex_found` leaves open. The
/// whole match is the first group of each, and it is always there.
#[verifier::external_body]
pub(crate) fn regex_matches(pattern: &str, case_insensitive: bool, text: &str) -> (r: Vec<
    Vec<Option<String>>,
>)
    ensures
        match_texts(r@) == regex_found(pattern@, case_insensitive, text@),
        forall|i: int| 0 <= i < r@.len() ==> (#[trigger] r@[i])@.len() > 0 && r@[i]@[0] is Some,
{
    match regex::RegexBuilder::new(pattern).case_insensitive(case_insensitive).build() {
        Ok(re) => re.captures_iter(text).map(
            |c| c.iter().map(|g| g.map(|m| m.as_str().to_string())).collect(),
        ).collect(),
        Err(_) => Vec::new(),
    }
}

// ---------------------------------------------------------------------------------------------
// File names
// ---------------------------------------------------------------------------------------------
/// A character that no file name may hold on the systems that the launcher runs on.
pub open spec fn illegal_in_names(c: char) -> bool {
    c == '/' || c == '?' || c == '<' || c == '>' || c == '\\' || c == ':' || c == '*' || c == '|'
        || c == '"'
}

/// A text without such characters.
pub open spec fn legal_name(name: Seq<char>) -> bool {
    forall|i: int| 0 <= i < name.len() ==> !illegal_in_names(#[trigger] name[i])
}

/// A control character.
pub open spec fn control(c: char) -> bool {
    c <= '\u{1f}' || '\u{80}' <= c <= '\u{9f}'
}

/// The name of a device on Windows, be it followed by an extension or not.
pub open spec fn device_name(name: Seq<char>) -> bool {
    let stem = lower(match parted(name, "."@) {
        Some((stem, _)) => stem,
        None => name,
    });
    stem == "con"@ || stem == "prn"@ || stem == "aux"@ || stem == "nul"@ || (stem.len() == 4 && (
    stem.take(3) == "com"@ || stem.take(3) == "lpt"@) && is_digit(stem[3]))
}

/// A text of dots alone.
pub open spec fn dots_alone(name: Seq<char>) -> bool {
    name.len() > 0 && forall|i: int| 0 <= i < name.len() ==> #[trigger] name[i] == '.'
}

/// The longest beginning of a name that takes at most 255 bytes.
pub open spec fn fitting(name: Seq<char>) -> Seq<char>
    decreases name.len(),
{
    if name.len() == 0 || encode_utf8(name).len() <= 255 {
        name
    } else {
        fitting(name.drop_last())
    }
}

/// A name made fit for a file: without the characters that no file name may hold and without
/// control characters, nothing if dots alone are left, and at most 255 bytes of it. Where the rules
/// of Windows count, nothing if it is the name of a device, and without the dots and spaces at its
/// end.
pub open spec fn sanitized_name(name: Seq<char>, windows: bool) -> Seq<char> {
    let kept = name.filter(|c: char| !illegal_in_names(c) && !control(c));
    let usable = if dots_alone(kept) || (windows && device_name(kept)) {
        seq![]
    } else {
        kept
    };
    fitting(
        if windows {
            trimmed_end(usable, |c: char| c == '.' || c == ' ')
        } else {
            usable
        },
    )
}

/// `sanitize_filename::sanitize_with_options`, with truncation and without replacements, makes a
/// name fit for a file: into what `sanitized_name` says.
#[verifier::external_body]
pub(crate) fn sanitize_name(name: &str, windows: bool) -> (r: String)
    ensures
        r@ == sanitized_name(name@, windows),
{
    let options = sanitize_filename::Options { windows, truncate: true, replacement: "" };
    sanitize_filename::sanitize_with_options(name, options)
}

/// A name is fit for a file: it holds no character that no file name may hold and no control
/// character, is not made of dots alone, and takes at most 255 bytes. Where the rules of Windows
/// count, it is not that of a device and ends neither in a dot nor in a space.
pub open spec fn name_is_sanitized(name: Seq<char>, windows: bool) -> bool {
    &&& legal_name(name)
    &&& forall|i: int| 0 <= i < name.len() ==> !control(#[trigger] name[i])
    &&& !dots_alone(name)
    &&& encode_utf8(name).len() <= 255
    &&& windows ==> !device_name(name) && !(name.len() > 0 && (name.last() == '.' || name.last()
        == ' '))
}

/// `sanitize_filename::is_sanitized_with_options` judges whether a name is fit for a file, with a
/// limit on its length: exactly the names that `name_is_sanitized` admits are.
#[verifier::external_body]
pub(crate) fn is_sanitized_name(name: &str, windows: bool) -> (r: bool)
    ensures
        r == name_is_sanitized(name@, windows),
{
    let options = sanitize_filename::OptionsForCheck { windows, truncate: true };
    sanitize_filename::is_sanitized_with_options(name, options)
}

/// `std::path::is_separator` on the backslash: whether paths are those of Windows. Nothing is
/// claimed of the result, which depends on the system.
#[verifier::external_body]
pub(crate) fn backslash_separates() -> (r: bool) {
    std::path::is_separator('\\')
}

/// The last name of a path, by the rules of Windows or of the other systems.
pub uninterp spec fn file_name_of(path: Seq<char>, windows: bool) -> Option<Seq<char>>;

/// What stands behind the last slash of a path; the whole path if there is none.
pub open spec fn last_part(path: Seq<char>) -> Seq<char> {
    match parted_at_last(path, "/"@) {
        Some((_, name)) => name,
        None => path,
    }
}

/// A path that every system reads in the same way: names with slashes between them. It begins
/// with no slash, holds no backslash and marks no drive, and its last part stands neither for a
/// directory itself nor for the one above it.
pub open spec fn plain_path(path: Seq<char>) -> bool {
    &&& path.len() > 0
    &&& path[0] != '/'
    &&& forall|i: int| 0 <= i < path.len() ==> #[trigger] path[i] != '\\' && path[i] != ':'
    &&& last_part(path).len() > 0
    &&& last_part(path) != "."@
    &&& last_part(path) != ".."@
}

/// `std::path::Path::file_name`: the last name of a path, if it has one. The result is a function
/// of the path and of whether the rules of Windows count, which the system decides; which
/// function, the name `file_name_of` leaves open. Of a path that every system reads in the same
/// way it is the last part.
#[verifier::external_body]
pub(crate) fn last_name(path: &str) -> (r: Option<String>)
    ensures
        exists|windows: bool| opt_text(r) == #[trigger] file_name_of(path@, windows),
        plain_path(path@) ==> opt_text(r) == Some(last_part(path@)),
{
    std::path::Path::new(path).file_name().and_then(|name| name.to_str()).map(|s| s.to_string())
}

// ---------------------------------------------------------------------------------------------
// Versions
// ---------------------------------------------------------------------------------------------
/// How one version stands to another.
#[derive(Clone, Copy, Debug, PartialEq, Eq, Structural)]
pub enum VersionOrder {
    Older,
    Same,
    Newer,
}

/// A text is a semantic version.
pub uninterp spec fn is_semver(text: Seq<char>) -> bool;

/// `semver::Version::parse` succeeds. The result is a function of the text; which one, the name
/// `is_semver` leaves open.
#[verifier::external_body]
pub(crate) fn parses_as_version(text: &str) -> (r: bool)
    ensures
        r == is_semver(text@),
{
    semver::Version::parse(text).is_ok()
}

/// How one semantic version stands to another; `None` if either text is none.
pub uninterp spec fn semver_order(a: Seq<char>, b: Seq<char>) -> Option<VersionOrder>;

/// Both texts are semantic versions.
pub open spec fn both_versions(a: Seq<char>, b: Seq<char>) -> bool {
    is_semver(a) && is_semver(b)
}

/// `semver::Version::partial_cmp` on two parsed texts: how the first stands to the second. The
/// result is a function of the two texts; which one, the name `semver_order` leaves open. It is
/// there exactly when both texts are versions.
#[verifier::external_body]
pub(crate) fn version_order(a: &str, b: &str) -> (r: Option<VersionOrder>)
    ensures
        r == semver_order(a@, b@),
        r is Some <==> both_versions(a@, b@),
{
    let x = semver::Version::parse(a).ok()?;
    let y = semver::Version::parse(b).ok()?;
    Some(
        if x < y {
            VersionOrder::Older
        } else if x > y {
            VersionOrder::Newer
        } else {
            VersionOrder::Same
        },
    )
}

// ---------------------------------------------------------------------------------------------
// JSON
// ---------------------------------------------------------------------------------------------
/// What stands at a place of a JSON document.
#[derive(Debug)]
pub enum JsonNode {
    /// The document is none.
    Invalid,
    /// Nothing stands there.
    Missing,
    /// A string.
    Text(String),
    /// An array, of a length.
    Array(usize),
    /// Something else.
    Other,
}

/// What stands at a place of a JSON document, as texts.
pub enum JsonModel {
    Invalid,
    Missing,
    Text(Seq<char>),
    Array(nat),
    Other,
}

impl View for JsonNode {
    type V = JsonModel;

    open spec fn view(&self) -> JsonModel {
        match *self {
            JsonNode::Invalid => JsonModel::Invalid,
            JsonNode::Missing => JsonModel::Missing,
            JsonNode::Text(s) => JsonModel::Text(s@),
            JsonNode::Array(n) => JsonModel::Array(n as nat),
            JsonNode::Other => JsonModel::Other,
        }
    }
}

/// What stands at a place of a JSON document, which a pointer names.
pub uninterp spec fn json_at(document: Seq<u8>, pointer: Seq<char>) -> JsonModel;

/// `serde_json::Value::pointer` on a parsed document: what stands at a place. The result is a
/// function of the bytes and the pointer; which one, the name `json_at` leaves open.
#[verifier::external_body]
pub(crate) fn json_node(document: &[u8], pointer: &str) -> (r: JsonNode)
    ensures
        r@ == json_at(document@, pointer@),
{
    match serde_json::from_slice::<serde_json::Value>(document) {
        Err(_) => JsonNode::Invalid,
        Ok(value) => match value.pointer(pointer) {
            None => JsonNode::Missing,
            Some(serde_json::Value::String(s)) => JsonNode::Text(s.clone()),
            Some(serde_json::Value::Array(items)) => JsonNode::Array(items.len()),
            Some(_) => JsonNode::Other,
        },
    }
}

/// The string, or null, that a JSON text writes.
#[derive(Debug)]
pub enum JsonText {
    /// Neither.
    Neither,
    Null,
    Text(String),
}

/// The string, or null, as a text.
pub enum JsonTextModel {
    Neither,
    Null,
    Text(Seq<char>),
}

impl View for JsonText {
    type V = JsonTextModel;

    open spec fn view(&self) -> JsonTextModel {
        match *self {
            JsonText::Neither => JsonTextModel::Neither,
            JsonText::Null => JsonTextModel::Null,
            JsonText::Text(s) => JsonTextModel::Text(s@),
        }
    }
}

/// The string, or null, that a JSON text writes.
pub uninterp spec fn json_text_of(text: Seq<char>) -> JsonTextModel;

/// `serde_json::from_str` into an optional string. The result is a function of the text; which
/// one, the name `json_text_of` leaves open.
#[verifier::external_body]
pub(crate) fn json_text(text: &str) -> (r: JsonText)
    ensures
        r@ == json_text_of(text@),
{
    match serde_json::from_str::<Option<String>>(text) {
        Err(_) => JsonText::Neither,
        Ok(None) => JsonText::Null,
        Ok(Some(s)) => JsonText::Text(s),
    }
}

// ---------------------------------------------------------------------------------------------
// Identities and chance
// ---------------------------------------------------------------------------------------------
/// The number of the identity that a text writes, as the `uuid` crate reads it.
pub uninterp spec fn uuid_parsed(text: Seq<char>) -> Option<u128>;

/// `uuid::Uuid::parse_str` reads an identity. The result is a function of the text; which one,
/// the name `uuid_parsed` leaves open.
#[verifier::external_body]
pub(crate) fn parse_uuid(text: &str) -> (r: Option<u128>)
    ensures
        r == uuid_parsed(text@),
{
    uuid::Uuid::parse_str(text).ok().map(|id| id.as_u128())
}

/// The number of the identity of version 5 in the namespace of addresses that belongs to a text.
pub uninterp spec fn uuid_of_name(name: Seq<char>) -> u128;

/// `uuid::Uuid::new_v5` in the namespace of addresses, on the bytes of a text. The result is a
/// function of the text; which one, the name `uuid_of_name` leaves open.
#[verifier::external_body]
pub(crate) fn name_uuid(name: &str) -> (r: u128)
    ensures
        r == uuid_of_name(name@),
{
    uuid::Uuid::new_v5(&uuid::Uuid::NAMESPACE_URL, name.as_bytes()).as_u128()
}

/// `rand::seq::IteratorRandom::choose` among the numbers below `count`: one of them by chance,
/// none if there is none. Nothing more is claimed.
#[verifier::external_body]
pub(crate) fn choose_below(count: usize) -> (r: Option<usize>)
    ensures
        r is None <==> count == 0,
        r matches Some(i) ==> i < count,
{
    rand::seq::IteratorRandom::choose(0..count, &mut rand::rng())
}

// ---------------------------------------------------------------------------------------------
// Letters
// ---------------------------------------------------------------------------------------------
/// A character has the Unicode property Uppercase.
pub uninterp spec fn unicode_uppercase(c: char) -> bool;

/// `char::is_uppercase` tells whether a character has the Unicode property Uppercase. Of ASCII
/// the capitals have it.
pub assume_specification[ char::is_uppercase ](c: char) -> (r: bool)
    ensures
        r == unicode_uppercase(c),
        c as u32 <= 0x7f ==> r == ('A' <= c <= 'Z'),
;

/// The lowercase equivalent of a text.
pub uninterp spec fn lowercase_of(text: Seq<char>) -> Seq<char>;

/// `str::to_lowercase` gives the lowercase equivalent of a text. The result is a function of the
/// text; which one, the name `lowercase_of` leaves open.
#[verifier::external_body]
pub(crate) fn lowercase(text: &str) -> (r: String)
    ensures
        r@ == lowercase_of(text@),
{
    text.to_lowercase()
}

} // verus!
