//! The certificates that the nodes present to each other.

use vstd::prelude::*;

verus! {

/// How long a node's certificate is valid: a year.
pub const CERTIFICATE_SECONDS: u64 = 31536000;

/// Whether a certificate and its private key, both in DER, are among those that
/// `rcgen::CertificateParams::self_signed` may give for a host and an organization, valid for a
/// number of seconds from the moment of the call. Which of them it gives is left to chance and the
/// clock.
pub uninterp spec fn may_certify(
    host: Seq<char>,
    organization: Seq<char>,
    seconds: u64,
    certificate: Seq<u8>,
    key: Seq<u8>,
) -> bool;

/// Whether a text holds nothing but ASCII characters.
pub open spec fn is_ascii(s: Seq<char>) -> bool {
    forall|i: int| 0 <= i < s.len() ==> #[trigger] s[i] <= '\x7f'
}

/// `rcgen::CertificateParams::self_signed` with a key from `rcgen::KeyPair::generate`: a certificate
/// for the host and the organization, valid from now for the given time, and its private key, both
/// in DER. A host name that is not ASCII is refused. The key is random and the time is the machine's,
/// so it is not said which of the possible certificates comes out, nor that one does: there is none
/// where no key can be made.
#[verifier::external_body]
fn self_signed(host: &str, organization: &str, seconds: u64) -> (r: Option<(Vec<u8>, Vec<u8>)>)
    requires
        seconds <= CERTIFICATE_SECONDS,
    ensures
        r matches Some((certificate, key)) ==> may_certify(
            host@,
            organization@,
            seconds,
            certificate@,
            key@,
        ),
        !is_ascii(host@) ==> r is None,
{
    let key = rcgen::KeyPair::generate().ok()?;
    let mut params = rcgen::CertificateParams::new(vec![host.to_string()]).ok()?;
    params.distinguished_name.push(rcgen::DnType::OrganizationName, organization);
    params.not_before = time::OffsetDateTime::now_utc();
    params.not_after = time::OffsetDateTime::now_utc() + std::time::Duration::from_secs(seconds);
    let cert = params.self_signed(&key).ok()?;
    Some((cert.der().to_vec(), key.serialize_der()))
}

/// A node's own certificate and private key: for its host name and the organization of the network,
/// and for a year. Which bytes come out is left to chance and the clock; there are none where the
/// host name is not ASCII, or no key can be made.
pub fn generate_self_signed_cert(hostname: &str) -> (r: Option<(Vec<u8>, Vec<u8>)>)
    ensures
        r matches Some((certificate, key)) ==> may_certify(
            hostname@,
            "Nebula TorPortal"@,
            CERTIFICATE_SECONDS,
            certificate@,
            key@,
        ),
        !is_ascii(hostname@) ==> r is None,
{
    self_signed(hostname, "Nebula TorPortal", CERTIFICATE_SECONDS)
}

} // verus!
