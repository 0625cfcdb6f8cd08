use vstd::prelude::*;

verus! {

/// How a session is carried over QUIC.
#[derive(Clone, Copy, Debug, PartialEq, Eq, Structural)]
pub enum UrlTransport {
    /// WebTransport over HTTP/3 (`https` URLs).
    WebTransport,
    /// MoQ directly over QUIC (`moqt` URLs).
    RawQuic,
}

/// The transport a URL scheme asks for, if it names one.
pub open spec fn scheme_transport(scheme: Seq<char>) -> Option<UrlTransport> {
    if scheme == "https"@ {
        Some(UrlTransport::WebTransport)
    } else if scheme == "moqt"@ {
        Some(UrlTransport::RawQuic)
    } else {
        None
    }
}

/// The transport a client connects with for a URL scheme: WebTransport for `https`,
/// raw QUIC for `moqt`; any other scheme is refused (`None`).
pub fn transport_for_scheme(scheme: &str) -> (r: Option<UrlTransport>)
    ensures
        r == scheme_transport(scheme@),
{
    let given = scheme.to_owned();
    let https = String::from_str("https");
    let moqt = String::from_str("moqt");
    if given == https {
        Some(UrlTransport::WebTransport)
    } else if given == moqt {
        Some(UrlTransport::RawQuic)
    } else {
        None
    }
}

/// `web_transport_quinn::ALPN`: claims it is `h3`, the value the crate's source defines
/// (WebTransport over HTTP/3).
#[verifier::external_body]
fn webtransport_alpn() -> (a: &'static str)
    ensures
        a@ == "h3"@,
{
    web_transport_quinn::ALPN
}

/// The ALPN of MoQ directly over QUIC.
pub fn moq_alpn() -> (a: &'static str)
    ensures
        a@ == "moq-00"@,
{
    "moq-00"
}

/// The transport an ALPN negotiated by a server stands for, if it names one.
pub open spec fn alpn_transport(alpn: Seq<char>) -> Option<UrlTransport> {
    if alpn == "h3"@ {
        Some(UrlTransport::WebTransport)
    } else if alpn == "moq-00"@ {
        Some(UrlTransport::RawQuic)
    } else {
        None
    }
}

/// The session kind a server accepts for the ALPN negotiated: a WebTransport request
/// for `h3`, a raw QUIC session for MoQ's own ALPN; any other is refused (`None`).
pub fn transport_for_alpn(alpn: &str) -> (r: Option<UrlTransport>)
    ensures
        r == alpn_transport(alpn@),
{
    let given = alpn.to_owned();
    let h3 = webtransport_alpn().to_owned();
    let moq = moq_alpn().to_owned();
    if given == h3 {
        Some(UrlTransport::WebTransport)
    } else if given == moq {
        Some(UrlTransport::RawQuic)
    } else {
        None
    }
}

} // verus!
