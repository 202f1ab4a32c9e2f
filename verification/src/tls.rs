//! The names and certificates of TLS connections.

use crate::checks;
use crate::client::{ClientError, ClientErrorView};
use crate::text;
use vstd::prelude::*;

verus! {

/// Why a host is no name that a certificate can be checked against, as
/// `ServerName::try_from` finds it.
pub uninterp spec fn name_failure(host: Seq<char>) -> Option<Seq<char>>;

/// The certificates of a PEM text, as `rustls_pemfile::certs` reads them, or why it
/// cannot be read.
pub uninterp spec fn pem_certificates(pem: Seq<u8>) -> Result<Seq<Seq<u8>>, Seq<char>>;

/// Why a certificate cannot be trusted as a root, as `RootCertStore::add` finds it.
pub uninterp spec fn root_failure(certificate: Seq<u8>) -> Option<Seq<char>>;

/// Calls `ServerName::try_from` of rustls' types: the result is the message of its
/// error, or nothing where the host is a name. The contract claims that it depends
/// on the host alone.
#[verifier::external_body]
fn check_name(host: &str) -> (r: Option<String>)
    ensures
        match r {
            Some(message) => name_failure(host@) == Some(message@),
            None => name_failure(host@) is None,
        },
{
    tokio_rustls::rustls::pki_types::ServerName::try_from(host.to_owned())
        .err()
        .map(|error| error.to_string())
}

/// Calls `rustls_pemfile::certs` on a PEM text: the result is the bytes of each
/// certificate, or the message of the first error. The contract claims that it
/// depends on the text alone.
#[verifier::external_body]
fn read_pem(pem: &[u8]) -> (r: Result<Vec<Vec<u8>>, String>)
    ensures
        match r {
            Ok(certificates) => pem_certificates(pem@) == Ok::<Seq<Seq<u8>>, Seq<char>>(
                certificate_bytes(certificates@),
            ),
            Err(message) => pem_certificates(pem@) == Err::<Seq<Seq<u8>>, Seq<char>>(message@),
        },
{
    let mut reader = std::io::Cursor::new(pem);
    rustls_pemfile::certs(&mut reader)
        .map(|item| item.map(|der| der.to_vec()).map_err(|error| error.to_string()))
        .collect()
}

/// Calls `RootCertStore::add` of rustls on an empty store: the result is the
/// message of its error, or nothing where the certificate was added. The contract
/// claims that it depends on the certificate alone.
#[verifier::external_body]
fn check_root(certificate: &Vec<u8>) -> (r: Option<String>)
    ensures
        match r {
            Some(message) => root_failure(certificate@) == Some(message@),
            None => root_failure(certificate@) is None,
        },
{
    tokio_rustls::rustls::RootCertStore::empty()
        .add(tokio_rustls::rustls::pki_types::CertificateDer::from(certificate.clone()))
        .err()
        .map(|error| error.to_string())
}

/// The bytes of certificates.
pub open spec fn certificate_bytes(certificates: Seq<Vec<u8>>) -> Seq<Seq<u8>> {
    certificates.map_values(|certificate: Vec<u8>| certificate@)
}

/// The last position of a character.
pub open spec fn last_position(s: Seq<char>, c: char) -> Option<int>
    decreases s.len(),
{
    if s.len() == 0 {
        None
    } else if s.last() == c {
        Some(s.len() - 1)
    } else {
        last_position(s.drop_last(), c)
    }
}

/// The first position of a character.
pub open spec fn first_position(s: Seq<char>, c: char, from: int) -> Option<int>
    decreases s.len() - from,
{
    if from < 0 || from >= s.len() {
        None
    } else if s[from] == c {
        Some(from)
    } else {
        first_position(s, c, from + 1)
    }
}

/// The host of an address: what stands between brackets, or before the port.
pub open spec fn host_of(address: Seq<char>) -> Seq<char> {
    let closing = first_position(address, ']', 1);
    if address.len() > 0 && address[0] == '[' && closing is Some {
        address.subrange(1, closing->0)
    } else {
        match last_position(address, ':') {
            Some(i) => address.take(i),
            None => address,
        }
    }
}

fn find_last(chars: &Vec<char>, c: char) -> (r: Option<usize>)
    ensures
        match r {
            Some(i) => last_position(chars@, c) == Some(i as int) && i < chars.len(),
            None => last_position(chars@, c) is None,
        },
{
    let mut n: usize = chars.len();
    assert(chars@.take(n as int) =~= chars@);
    while n > 0
        invariant
            n <= chars.len(),
            last_position(chars@, c) == last_position(chars@.take(n as int), c),
        decreases n,
    {
        assert(chars@.take(n as int).last() == chars@[n - 1]);
        assert(chars@.take(n as int).drop_last() =~= chars@.take(n - 1));
        if chars[n - 1] == c {
            return Some(n - 1);
        }
        n -= 1;
    }
    None
}

fn find_first(chars: &Vec<char>, c: char, from: usize) -> (r: Option<usize>)
    ensures
        match r {
            Some(i) => first_position(chars@, c, from as int) == Some(i as int) && from <= i
                < chars.len(),
            None => first_position(chars@, c, from as int) is None,
        },
{
    let mut i: usize = from;
    while i < chars.len()
        invariant
            from <= i,
            first_position(chars@, c, from as int) == first_position(chars@, c, i as int),
        decreases chars.len() - i,
    {
        if chars[i] == c {
            return Some(i);
        }
        i += 1;
    }
    None
}

/// The host of an address.
pub fn tls_host(address: &str) -> (r: String)
    ensures
        r@ == host_of(address@),
{
    let chars = text::chars_of(address);
    if chars.len() > 0 && chars[0] == '[' {
        if let Some(end) = find_first(&chars, ']', 1) {
            return text::slice(&chars, 1, end);
        }
    }
    match find_last(&chars, ':') {
        Some(end) => {
            let host = text::slice(&chars, 0, end);
            assert(host@ =~= address@.take(end as int));
            host
        },
        None => address.to_owned(),
    }
}

/// What the host of an address comes to, where `failure` says whether it is a name.
pub open spec fn named_host(host: Seq<char>, failure: Option<Seq<char>>) -> Result<
    Seq<char>,
    ClientErrorView,
> {
    match failure {
        None => Ok(host),
        Some(message) => Err(
            ClientErrorView::Configuration(
                "invalid TLS server name '"@ + host + "': "@ + message,
            ),
        ),
    }
}

/// Accepts the host of an address, unless it is no name.
pub fn accept_name(host: String, failure: Option<String>) -> (r: Result<String, ClientError>)
    ensures
        crate::client::client_outcome(r) == named_host(host@, crate::error::inner(failure)),
{
    match failure {
        None => Ok(host),
        Some(message) => {
            let start = text::joined3("invalid TLS server name '", host.as_str(), "': ");
            Err(ClientError::Configuration(text::joined(start.as_str(), message.as_str())))
        },
    }
}

/// The name that the certificate of an address is checked against.
pub fn tls_server_name(address: &str) -> (r: Result<String, ClientError>)
    ensures
        crate::client::client_outcome(r) == named_host(
            host_of(address@),
            name_failure(host_of(address@)),
        ),
{
    let host = tls_host(address);
    let failure = check_name(host.as_str());
    accept_name(host, failure)
}

/// What the certificates of a PEM text come to, where `failures` says of each
/// whether it can be trusted.
pub open spec fn trusted(
    certificates: Seq<Seq<u8>>,
    failures: Seq<Option<Seq<char>>>,
) -> Result<Seq<Seq<u8>>, ClientErrorView> {
    if certificates.len() == 0 {
        Err(ClientErrorView::Configuration("CA certificate PEM contains no certificates"@))
    } else {
        match checks::first_of(failures) {
            Some(message) => Err(
                ClientErrorView::Configuration("invalid CA certificate: "@ + message),
            ),
            None => Ok(certificates),
        }
    }
}

/// Why each of the certificates cannot be trusted, if it cannot.
pub open spec fn root_failures(certificates: Seq<Seq<u8>>) -> Seq<Option<Seq<char>>> {
    certificates.map_values(|certificate: Seq<u8>| root_failure(certificate))
}

/// The certificates that are trusted beside the public roots.
pub open spec fn trusted_roots(pem: Option<Seq<u8>>) -> Result<Seq<Seq<u8>>, ClientErrorView> {
    match pem {
        None => Ok(Seq::empty()),
        Some(pem) => match pem_certificates(pem) {
            Err(message) => Err(
                ClientErrorView::Configuration("invalid CA certificate PEM: "@ + message),
            ),
            Ok(certificates) => trusted(certificates, root_failures(certificates)),
        },
    }
}

/// Accepts certificates as roots, unless there is none or one of them fails.
pub fn accept_roots(certificates: Vec<Vec<u8>>, failures: Vec<Option<String>>) -> (r: Result<
    Vec<Vec<u8>>,
    ClientError,
>)
    ensures
        match r {
            Ok(accepted) => trusted(
                certificate_bytes(certificates@),
                checks::texts(failures@),
            ) == Ok::<Seq<Seq<u8>>, ClientErrorView>(certificate_bytes(accepted@)),
            Err(error) => trusted(
                certificate_bytes(certificates@),
                checks::texts(failures@),
            ) == Err::<Seq<Seq<u8>>, ClientErrorView>(error@),
        },
{
    if certificates.len() == 0 {
        return Err(
            ClientError::Configuration("CA certificate PEM contains no certificates".to_owned()),
        );
    }
    match checks::first_complaint(failures) {
        Some(message) => Err(
            ClientError::Configuration(text::joined("invalid CA certificate: ", message.as_str())),
        ),
        None => Ok(certificates),
    }
}

/// The certificates that are trusted beside the public roots: those of a PEM text,
/// which add to the public ones and do not replace them.
pub fn verified_tls_config(ca_certificate: Option<&[u8]>) -> (r: Result<Vec<Vec<u8>>, ClientError>)
    ensures
        ({
            let expected = trusted_roots(
                match ca_certificate {
                    Some(pem) => Some(pem@),
                    None => None,
                },
            );
            match r {
                Ok(roots) => expected == Ok::<Seq<Seq<u8>>, ClientErrorView>(
                    certificate_bytes(roots@),
                ),
                Err(error) => expected == Err::<Seq<Seq<u8>>, ClientErrorView>(error@),
            }
        }),
{
    let pem = match ca_certificate {
        Some(pem) => pem,
        None => {
            let none: Vec<Vec<u8>> = Vec::new();
            assert(certificate_bytes(none@) =~= Seq::<Seq<u8>>::empty());
            return Ok(none);
        },
    };
    let certificates = match read_pem(pem) {
        Ok(certificates) => certificates,
        Err(message) => {
            return Err(
                ClientError::Configuration(
                    text::joined("invalid CA certificate PEM: ", message.as_str()),
                ),
            );
        },
    };
    let mut failures: Vec<Option<String>> = Vec::new();
    let mut i: usize = 0;
    while i < certificates.len()
        invariant
            i <= certificates.len(),
            failures.len() == i,
            forall|k: int|
                0 <= k < i ==> crate::error::inner(#[trigger] failures@[k]) == root_failure(
                    certificates@[k]@,
                ),
        decreases certificates.len() - i,
    {
        let failure = check_root(&certificates[i]);
        failures.push(failure);
        i += 1;
    }
    assert(checks::texts(failures@) =~= root_failures(certificate_bytes(certificates@)));
    accept_roots(certificates, failures)
}

/// A text that is no certificate, or holds one that cannot be trusted, adds
/// nothing: every root that is added was found trustworthy.
pub proof fn added_roots_are_trustworthy(pem: Seq<u8>, i: int)
    requires
        trusted_roots(Some(pem)) is Ok,
        0 <= i < trusted_roots(Some(pem))->Ok_0.len(),
    ensures
        root_failure(trusted_roots(Some(pem))->Ok_0[i]) is None,
{
    let certificates = pem_certificates(pem)->Ok_0;
    let failures = root_failures(certificates);
    checks::lemma_none(failures, i);
    assert(failures[i] == root_failure(certificates[i]));
}

} // verus!
