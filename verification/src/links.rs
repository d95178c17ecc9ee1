//! URLs.

use vstd::prelude::*;

use crate::text::{opt_view, result_view, same};

verus! {

/// A URL, written in the normal form, with its scheme and its host.
#[derive(Debug)]
pub struct ParsedUrl {
    pub text: String,
    pub scheme: String,
    pub host: Option<String>,
}

impl View for ParsedUrl {
    type V = (Seq<char>, Seq<char>, Option<Seq<char>>);

    open spec fn view(&self) -> (Seq<char>, Seq<char>, Option<Seq<char>>) {
        (self.text@, self.scheme@, opt_view(self.host))
    }
}

/// What `url::Url::parse` makes of a text: the URL's normal form, scheme and
/// host, or the message of the parse error.
pub uninterp spec fn url_of(text: Seq<char>) -> Result<
    (Seq<char>, Seq<char>, Option<Seq<char>>),
    Seq<char>,
>;

/// `url::Url::parse`, with the URL taken apart by `as_str`, `scheme` and
/// `host_str`, and the error by its message. All of it depends on the text alone.
#[verifier::external_body]
pub(crate) fn parse_url(text: &str) -> (r: Result<ParsedUrl, String>)
    ensures
        result_view(r) == url_of(text@),
{
    match url::Url::parse(text) {
        Ok(url) => Ok(
            ParsedUrl {
                text: url.as_str().to_string(),
                scheme: url.scheme().to_string(),
                host: url.host_str().map(str::to_string),
            },
        ),
        Err(e) => Err(e.to_string()),
    }
}

/// Why a text is no link to a secure page.
#[derive(Debug)]
pub enum UrlError<S = String> {
    /// It is no URL; the reason.
    Parse(S),
    /// The scheme is not `https` but this.
    NotHttps(S),
    NoHost,
}

impl View for UrlError {
    type V = UrlError<Seq<char>>;

    open spec fn view(&self) -> UrlError<Seq<char>> {
        match self {
            UrlError::Parse(reason) => UrlError::Parse(reason@),
            UrlError::NotHttps(scheme) => UrlError::NotHttps(scheme@),
            UrlError::NoHost => UrlError::NoHost,
        }
    }
}

pub struct HttpsView {
    pub text: Seq<char>,
    pub host: Seq<char>,
}

/// The `https` URL with a host that a parsed URL is.
pub open spec fn secured(
    url: Result<(Seq<char>, Seq<char>, Option<Seq<char>>), Seq<char>>,
) -> Result<HttpsView, UrlError<Seq<char>>> {
    match url {
        Err(reason) => Err(UrlError::Parse(reason)),
        Ok((text, scheme, host)) => {
            if scheme != "https"@ {
                Err(UrlError::NotHttps(scheme))
            } else {
                match host {
                    None => Err(UrlError::NoHost),
                    Some(host) => Ok(HttpsView { text, host }),
                }
            }
        },
    }
}

/// An `https` URL with a host.
#[derive(Debug, Clone, PartialEq, Eq)]
pub struct HttpsUrl {
    text: String,
    host: String,
}

impl View for HttpsUrl {
    type V = HttpsView;

    closed spec fn view(&self) -> HttpsView {
        HttpsView { text: self.text@, host: self.host@ }
    }
}

impl HttpsUrl {
    pub fn new(text: &str) -> (r: Result<HttpsUrl, UrlError>)
        ensures
            result_view(r) == secured(url_of(text@)),
    {
        HttpsUrl::from_parsed(parse_url(text))
    }

    pub fn as_str(&self) -> (text: &str)
        ensures
            text@ == self@.text,
    {
        self.text.as_str()
    }

    pub fn host(&self) -> (host: &str)
        ensures
            host@ == self@.host,
    {
        self.host.as_str()
    }

    /// What a parse attempt comes to when only `https` with a host will do.
    pub fn from_parsed(parsed: Result<ParsedUrl, String>) -> (r: Result<HttpsUrl, UrlError>)
        ensures
            result_view(r) == secured(result_view(parsed)),
    {
        match parsed {
            Err(reason) => Err(UrlError::Parse(reason)),
            Ok(url) => {
                if !same(url.scheme.as_str(), "https") {
                    return Err(UrlError::NotHttps(url.scheme));
                }
                match url.host {
                    None => Err(UrlError::NoHost),
                    Some(host) => Ok(HttpsUrl { text: url.text, host }),
                }
            },
        }
    }
}

/// A secure link is an `https` URL, in its normal form.
pub proof fn law_secure_links_are_https(text: Seq<char>)
    requires
        secured(url_of(text)) is Ok,
    ensures
        url_of(text) is Ok,
        url_of(text)->Ok_0.1 == "https"@,
        url_of(text)->Ok_0.2 is Some,
        secured(url_of(text))->Ok_0.text == url_of(text)->Ok_0.0,
{
}

/// A link is taken when it is a URL, its scheme is `https` and it has a host; it is then
/// that URL, in its normal form, with that host. Otherwise the first of these that does
/// not hold is told: why it is no URL, which scheme it has, or that it has no host.
pub proof fn law_only_https_links_with_a_host_are_taken(
    text: Seq<char>,
    scheme: Seq<char>,
    host: Option<Seq<char>>,
    reason: Seq<char>,
)
    ensures
        scheme == "https"@ && host is Some ==> secured(Ok((text, scheme, host))) == Ok::<
            _,
            UrlError<Seq<char>>,
        >((HttpsView { text, host: host->Some_0 })),
        scheme != "https"@ ==> secured(Ok((text, scheme, host))) == Err::<HttpsView, _>(
            UrlError::NotHttps(scheme),
        ),
        scheme == "https"@ && host is None ==> secured(Ok((text, scheme, host))) == Err::<
            HttpsView,
            _,
        >(UrlError::<Seq<char>>::NoHost),
        secured(Err(reason)) == Err::<HttpsView, _>(UrlError::Parse(reason)),
{
}

} // verus!
