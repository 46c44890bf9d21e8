use vstd::prelude::*;
use crate::error::PdError;
use crate::text::{lemma_split_on_nonempty, parse_u16, parse_u16_str, split, split_on};

verus! {

/// What `url::Url::parse` makes of `addr`: `None` when it is no valid URL,
/// otherwise the parsed URL's host (`Url::host_str`) and port (`Url::port`).
pub uninterp spec fn parsed_url(addr: Seq<char>) -> Option<(Option<Seq<char>>, Option<u16>)>;

/// The host and port of a parsed URL.
pub struct UrlParts {
    pub host: Option<String>,
    pub port: Option<u16>,
}

pub open spec fn url_parts_view(parts: Option<UrlParts>) -> Option<(Option<Seq<char>>, Option<u16>)> {
    match parts {
        None => None,
        Some(p) => Some(
            (
                match p.host {
                    Some(h) => Some(h@),
                    None => None,
                },
                p.port,
            ),
        ),
    }
}

/// Calls `url::Url::parse` on `addr` and, when it succeeds, reads the host
/// (`Url::host_str`, copied into a `String`) and the port (`Url::port`) of
/// the parsed URL; a parse error becomes `None`. The contract names the
/// result (`parsed_url`) and states nothing more of it.
#[verifier::external_body]
fn parse_url(addr: &str) -> (parts: Option<UrlParts>)
    ensures
        url_parts_view(parts) == parsed_url(addr@),
{
    match url::Url::parse(addr) {
        Ok(u) => Some(
            UrlParts {
                host: match u.host_str() {
                    Some(h) => Some(h.to_owned()),
                    None => None,
                },
                port: u.port(),
            },
        ),
        Err(_) => None,
    }
}

/// Where the host and port come from when an address is no URL: the text
/// before the first `:` is the host, the text after it up to the next `:`
/// must be a port number.
pub open spec fn fallback_ok(addr: Seq<char>) -> bool {
    split_on(addr, ':').len() >= 2 && parse_u16(split_on(addr, ':')[1]) is Some
}

/// The host and port of a URL, as the client needs them to connect.
pub open spec fn url_address(parsed: (Option<Seq<char>>, Option<u16>)) -> Result<
    (Seq<char>, u16),
    PdError,
> {
    match parsed.0 {
        None => Err(PdError::UnknownHost),
        Some(h) => match parsed.1 {
            None => Err(PdError::UnknownPort),
            Some(p) => Ok((h, p)),
        },
    }
}

pub open spec fn address_view(res: Result<(String, u16), PdError>) -> Result<(Seq<char>, u16), PdError> {
    match res {
        Ok((h, p)) => Ok((h@, p)),
        Err(e) => Err(e),
    }
}

/// The host and port of an endpoint URL that parsed: an error when the URL
/// names no host or no port.
pub fn address_from_url(parts: UrlParts) -> (res: Result<(String, u16), PdError>)
    ensures
        address_view(res) == url_address(url_parts_view(Some(parts))->0),
{
    match parts.host {
        None => Err(PdError::UnknownHost),
        Some(h) => match parts.port {
            None => Err(PdError::UnknownPort),
            Some(p) => Ok((h, p)),
        },
    }
}

/// The host and port of an endpoint, as the asynchronous client connects:
/// an endpoint that is no URL is refused.
pub fn strict_address_from(parts: Option<UrlParts>) -> (res: Result<(String, u16), PdError>)
    ensures
        address_view(res) == match url_parts_view(parts) {
            None => Err(PdError::InvalidUrl),
            Some(u) => url_address(u),
        },
{
    match parts {
        None => Err(PdError::InvalidUrl),
        Some(p) => address_from_url(p),
    }
}

/// The host and port of the endpoint `addr`, as the asynchronous client
/// connects to it.
pub fn endpoint_address(addr: &str) -> (res: Result<(String, u16), PdError>)
    ensures
        address_view(res) == match parsed_url(addr@) {
            None => Err(PdError::InvalidUrl),
            Some(u) => url_address(u),
        },
{
    strict_address_from(parse_url(addr))
}

/// The host before the first `:` and the port number after it.
pub fn host_port_fallback(addr: &str) -> (res: (String, u16))
    requires
        fallback_ok(addr@),
    ensures
        res.0@ == split_on(addr@, ':')[0],
        Some(res.1) == parse_u16(split_on(addr@, ':')[1]),
{
    let pieces = split(addr, ':');
    proof {
        lemma_split_on_nonempty(addr@, ':');
        assert(pieces@[1]@ == split_on(addr@, ':')[1]);
    }
    let port = parse_u16_str(pieces[1].as_str());
    (pieces[0].clone(), port.unwrap())
}

/// The host and port of an endpoint, as the blocking client connects: an
/// endpoint that is no URL is read as `host:port`.
pub fn lenient_address_from(addr: &str, parts: Option<UrlParts>) -> (res: Result<(String, u16), PdError>)
    requires
        parts is None ==> fallback_ok(addr@),
    ensures
        parts is Some ==> address_view(res) == url_address(url_parts_view(parts)->0),
        parts is None ==> (res matches Ok((h, p)) && h@ == split_on(addr@, ':')[0] && Some(p)
            == parse_u16(split_on(addr@, ':')[1])),
{
    match parts {
        Some(p) => address_from_url(p),
        None => Ok(host_port_fallback(addr)),
    }
}

/// Whether `addr` can be read as `host:port`.
pub fn has_fallback_address(addr: &str) -> (b: bool)
    ensures
        b == fallback_ok(addr@),
{
    let pieces = split(addr, ':');
    if pieces.len() < 2 {
        return false;
    }
    proof {
        assert(pieces@[1]@ == split_on(addr@, ':')[1]);
    }
    parse_u16_str(pieces[1].as_str()).is_some()
}

/// The host and port of the endpoint `addr`, as the blocking client
/// connects to it; `None` for an address that is neither a URL nor
/// `host:port`, on which the blocking client gives up.
pub fn blocking_endpoint_address(addr: &str) -> (res: Option<Result<(String, u16), PdError>>)
    ensures
        res is None <==> parsed_url(addr@) is None && !fallback_ok(addr@),
        parsed_url(addr@) matches Some(u) ==> (res matches Some(r) && address_view(r) == url_address(u)),
        parsed_url(addr@) is None && fallback_ok(addr@) ==> (res matches Some(Ok((h, p))) && h@
            == split_on(addr@, ':')[0] && Some(p) == parse_u16(split_on(addr@, ':')[1])),
{
    let parts = parse_url(addr);
    if parts.is_none() && !has_fallback_address(addr) {
        return None;
    }
    Some(lenient_address_from(addr, parts))
}

} // verus!
