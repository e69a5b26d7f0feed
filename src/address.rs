use vstd::prelude::*;

verus! {

/// Why a string is not an absolute address.
#[derive(Debug, Clone, Copy, PartialEq, Eq, Structural)]
pub enum UrlError {
    /// The string is a relative reference and no base was given.
    RelativeWithoutBase,
    /// Any other syntax error.
    Invalid,
}

#[verifier::external_type_specification]
#[verifier::external_body]
pub struct ExUrl(url::Url);

/// What `url::Url::parse` makes of a string: the serialization of the
/// parsed address, or the kind of failure.
pub uninterp spec fn url_parse(s: Seq<char>) -> Result<Seq<char>, UrlError>;

/// The serialization after `url::Url::set_path("")` on the address serialized as `t`.
pub uninterp spec fn path_cleared(t: Seq<char>) -> Seq<char>;

/// The serialization after `url::Url::set_query(None)` on the address serialized as `t`.
pub uninterp spec fn query_cleared(t: Seq<char>) -> Seq<char>;

/// What `url::Url::join` makes of `href` against the address serialized as `base`.
pub uninterp spec fn url_join(base: Seq<char>, href: Seq<char>) -> Result<Seq<char>, UrlError>;

/// An absolute, parsed address. `text` is always the serialization of `url`:
/// both are only ever filled together, from one parsed value.
pub struct Address {
    text: String,
    url: url::Url,
}

impl View for Address {
    type V = Seq<char>;

    closed spec fn view(&self) -> Seq<char> {
        self.text@
    }
}

/// Relies on `url::Url::parse`, and on `url::Url::as_str` for the serialization.
#[verifier::external_body]
fn parse_url(s: &str) -> (r: Result<Address, UrlError>)
    ensures
        match r {
            Ok(a) => url_parse(s@) == Ok::<Seq<char>, UrlError>(a@),
            Err(e) => url_parse(s@) == Err::<Seq<char>, UrlError>(e),
        },
{
    match url::Url::parse(s) {
        Ok(u) => Ok(Address { text: u.as_str().to_string(), url: u }),
        Err(url::ParseError::RelativeUrlWithoutBase) => Err(UrlError::RelativeWithoutBase),
        Err(_) => Err(UrlError::Invalid),
    }
}

/// Relies on `url::Url::set_path`, called with the empty path.
#[verifier::external_body]
fn with_empty_path(a: &Address) -> (r: Address)
    ensures
        r@ == path_cleared(a@),
{
    let mut u = a.url.clone();
    u.set_path("");
    Address { text: u.as_str().to_string(), url: u }
}

/// Relies on `url::Url::set_query`, called with `None`.
#[verifier::external_body]
fn without_query(a: &Address) -> (r: Address)
    ensures
        r@ == query_cleared(a@),
{
    let mut u = a.url.clone();
    u.set_query(None);
    Address { text: u.as_str().to_string(), url: u }
}

/// Relies on `url::Url::join`: `href` resolved with `base` as the base address.
#[verifier::external_body]
fn join_url(base: &Address, href: &str) -> (r: Result<Address, UrlError>)
    ensures
        match r {
            Ok(a) => url_join(base@, href@) == Ok::<Seq<char>, UrlError>(a@),
            Err(e) => url_join(base@, href@) == Err::<Seq<char>, UrlError>(e),
        },
{
    match base.url.join(href) {
        Ok(u) => Ok(Address { text: u.as_str().to_string(), url: u }),
        Err(url::ParseError::RelativeUrlWithoutBase) => Err(UrlError::RelativeWithoutBase),
        Err(_) => Err(UrlError::Invalid),
    }
}

/// The base against which relative links of the page at `base` resolve:
/// the same scheme, host and port, with the path and the query cleared.
pub open spec fn domain_root_spec(base: Seq<char>) -> Seq<char> {
    query_cleared(path_cleared(base))
}

/// The address that `href`, found on a page whose domain root is `root`,
/// stands for; `None` where it is malformed. An href that parses as an
/// absolute address is taken as parsed; one that is only relative is joined
/// to the domain root.
pub open spec fn resolve_spec(root: Seq<char>, href: Seq<char>) -> Option<Seq<char>> {
    match url_parse(href) {
        Ok(t) => Some(t),
        Err(UrlError::RelativeWithoutBase) => match url_join(root, href) {
            Ok(t) => Some(t),
            Err(_) => None,
        },
        Err(UrlError::Invalid) => None,
    }
}

impl Address {
    /// Parses an absolute address.
    pub fn parse(s: &str) -> (r: Result<Address, UrlError>)
        ensures
            match r {
                Ok(a) => url_parse(s@) == Ok::<Seq<char>, UrlError>(a@),
                Err(e) => url_parse(s@) == Err::<Seq<char>, UrlError>(e),
            },
    {
        parse_url(s)
    }

    /// The serialization of the address.
    pub fn as_str(&self) -> (r: &str)
        ensures
            r@ == self@,
    {
        self.text.as_str()
    }

    /// The domain root of this address: path and query cleared.
    pub fn domain_root(&self) -> (r: Address)
        ensures
            r@ == domain_root_spec(self@),
    {
        let p = with_empty_path(self);
        without_query(&p)
    }
}

/// Resolves one raw link reference against a domain root; `None` where the
/// reference is neither a valid absolute nor a valid relative address.
pub fn resolve_link(root: &Address, href: &str) -> (r: Option<Address>)
    ensures
        match r {
            Some(a) => resolve_spec(root@, href@) == Some(a@),
            None => resolve_spec(root@, href@) is None,
        },
{
    match parse_url(href) {
        Ok(a) => Some(a),
        Err(UrlError::RelativeWithoutBase) => match join_url(root, href) {
            Ok(a) => Some(a),
            Err(_) => None,
        },
        Err(UrlError::Invalid) => None,
    }
}

/// An href that already parses as an absolute address resolves to that
/// address unchanged, whatever the domain root.
pub proof fn lemma_absolute_href_unchanged(root: Seq<char>, href: Seq<char>, t: Seq<char>)
    requires
        url_parse(href) == Ok::<Seq<char>, UrlError>(t),
    ensures
        resolve_spec(root, href) == Some(t),
{
}

} // verus!
