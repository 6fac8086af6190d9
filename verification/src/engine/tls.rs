//! TLS identity material for the QUIC endpoint: certificates and keys read
//! from operator PEM files, and the self-signed lab certificate.
use vstd::prelude::*;
use vstd::string::StringExecFns;

verus! {

/// The DER certificates that `rustls_pemfile::certs` reads from the PEM text
/// `pem`, in order, or the text of the first error it reports.
pub uninterp spec fn pem_certificates(pem: Seq<u8>) -> Result<Seq<Seq<u8>>, Seq<char>>;

/// The first private key that `rustls_pemfile::private_key` reads from `pem`,
/// as its encoding code ([`KEY_PKCS1`], [`KEY_SEC1`] or [`KEY_PKCS8`]) and DER
/// bytes, or `None` when there is none; or the text of the error it reports.
/// (The crate reads only these three encodings, so no other key can come out.)
pub uninterp spec fn pem_private_key(pem: Seq<u8>) -> Result<Option<(u8, Seq<u8>)>, Seq<char>>;

/// Code of an RSA (PKCS#1) private key.
pub const KEY_PKCS1: u8 = 1;

/// Code of an EC (SEC1) private key.
pub const KEY_SEC1: u8 = 2;

/// Code of a PKCS#8 private key.
pub const KEY_PKCS8: u8 = 3;

pub open spec fn der_views(v: Seq<Vec<u8>>) -> Seq<Seq<u8>> {
    v.map_values(|c: Vec<u8>| c@)
}

/// Calls `rustls_pemfile::certs` on the PEM text and collects the DER bytes of
/// each certificate; on the first error, its message. The result is named
/// [`pem_certificates`].
#[verifier::external_body]
fn read_pem_certs(pem: &[u8]) -> (r: Result<Vec<Vec<u8>>, String>)
    ensures
        r is Ok <==> pem_certificates(pem@) is Ok,
        r matches Ok(v) ==> (pem_certificates(pem@) matches Ok(c) && c == der_views(v@)),
        r matches Err(e) ==> (pem_certificates(pem@) matches Err(d) && d == e@),
{
    let mut rd = pem;
    rustls_pemfile::certs(&mut rd).map(|c| c.map(|d| d.as_ref().to_vec()).map_err(|e| e.to_string())).collect()
}

/// Calls `rustls_pemfile::private_key` on the PEM text and returns the key's
/// encoding code and DER bytes, or the error's message. The result is named
/// [`pem_private_key`].
#[verifier::external_body]
fn read_pem_key(pem: &[u8]) -> (r: Result<Option<(u8, Vec<u8>)>, String>)
    ensures
        r is Ok <==> pem_private_key(pem@) is Ok,
        r matches Ok(Some((code, der))) ==> (pem_private_key(pem@) matches Ok(Some((c, d))) && c
            == code && d == der@),
        r matches Ok(None) ==> pem_private_key(pem@) matches Ok(None),
        r matches Err(e) ==> (pem_private_key(pem@) matches Err(d) && d == e@),
{
    let mut rd = pem;
    match rustls_pemfile::private_key(&mut rd) {
        Ok(Some(rustls::pki_types::PrivateKeyDer::Pkcs1(k))) => Ok(Some((KEY_PKCS1, k.secret_pkcs1_der().to_vec()))),
        Ok(Some(rustls::pki_types::PrivateKeyDer::Sec1(k))) => Ok(Some((KEY_SEC1, k.secret_sec1_der().to_vec()))),
        Ok(Some(rustls::pki_types::PrivateKeyDer::Pkcs8(k))) => Ok(Some((KEY_PKCS8, k.secret_pkcs8_der().to_vec()))),
        Ok(Some(_)) => Err("unsupported private key encoding".to_string()),
        Ok(None) => Ok(None),
        Err(e) => Err(e.to_string()),
    }
}

/// `prefix` followed by `path`.
fn message(prefix: &str, path: &str) -> (m: String)
    ensures
        m@ == prefix@ + path@,
{
    let mut m = prefix.to_owned();
    m.append(path);
    m
}

/// The certificates of the PEM file at `path` whose text is `pem`: an error
/// when the text does not parse or holds no certificate.
pub fn certificates_from_pem(path: &str, pem: &[u8]) -> (r: Result<Vec<Vec<u8>>, String>)
    ensures
        match pem_certificates(pem@) {
            Err(d) => r matches Err(m) && m@ == "TLS: parse certificate PEM "@ + path@ + ": "@ + d,
            Ok(c) => if c.len() == 0 {
                r matches Err(m) && m@ == "TLS: no certificates found in "@ + path@
            } else {
                r matches Ok(v) && der_views(v@) == c
            },
        },
{
    match read_pem_certs(pem) {
        Err(e) => {
            let mut m = message("TLS: parse certificate PEM ", path);
            m.append(": ");
            m.append(e.as_str());
            Err(m)
        },
        Ok(certs) => {
            if certs.len() == 0 {
                Err(message("TLS: no certificates found in ", path))
            } else {
                Ok(certs)
            }
        },
    }
}

/// A private key: its encoding code and DER bytes.
pub struct PrivateKey {
    pub kind: u8,
    pub der: Vec<u8>,
}

/// The private key of the PEM file at `path` whose text is `pem`: an error when
/// the text does not parse or holds no key.
pub fn private_key_from_pem(path: &str, pem: &[u8]) -> (r: Result<PrivateKey, String>)
    ensures
        match pem_private_key(pem@) {
            Err(d) => r matches Err(m) && m@ == "TLS: parse private key PEM "@ + path@ + ": "@ + d,
            Ok(None) => r matches Err(m) && m@ == "TLS: no private key found in "@ + path@,
            Ok(Some((code, der))) => r matches Ok(k) && k.kind == code && k.der@ == der,
        },
{
    match read_pem_key(pem) {
        Err(e) => {
            let mut m = message("TLS: parse private key PEM ", path);
            m.append(": ");
            m.append(e.as_str());
            Err(m)
        },
        Ok(None) => Err(message("TLS: no private key found in ", path)),
        Ok(Some((kind, der))) => Ok(PrivateKey { kind, der }),
    }
}

/// The first bytes of every P-256 PKCS#8 document that `ring` writes: a
/// SEQUENCE of 135 content bytes, then the version INTEGER 0.
pub open spec fn p256_pkcs8_head() -> Seq<u8> {
    seq![0x30u8, 0x81u8, 0x87u8, 0x02u8, 0x01u8, 0x00u8]
}

/// How long a P-256 PKCS#8 document from `ring` is: its 41-byte template, the
/// 32-byte private scalar and the 65-byte uncompressed public point.
pub open spec fn p256_pkcs8_len() -> nat {
    138
}

/// Calls `rcgen::generate_simple_self_signed` for the given subject names and
/// returns the certificate's DER bytes and the PKCS#8 DER bytes of its fresh
/// key pair, or the error's message. The key pair is random, so only its shape
/// is stated: rcgen 0.13 generates it with `KeyPair::generate`, an ECDSA P-256
/// key that `ring`'s `EcdsaKeyPair::generate_pkcs8` writes as a 138-byte
/// PKCS#8 document beginning with [`p256_pkcs8_head`], and `serialize_der`
/// hands those bytes back. The certificate holds that key's 91-byte public key
/// info, its subject names and an ECDSA signature, so its DER is longer than
/// the key's. Nothing is stated of when the call fails.
#[verifier::external_body]
fn self_signed_certificate(names: Vec<String>) -> (r: Result<(Vec<u8>, Vec<u8>), String>)
    ensures
        r matches Ok((c, k)) ==> {
            &&& k@.len() == p256_pkcs8_len()
            &&& k@.take(6) == p256_pkcs8_head()
            &&& c@.len() > p256_pkcs8_len()
        },
{
    match rcgen::generate_simple_self_signed(names) {
        Ok(rcgen::CertifiedKey { cert, key_pair }) => Ok((cert.der().to_vec(), key_pair.serialize_der())),
        Err(e) => Err(e.to_string()),
    }
}

/// The subject names of the lab certificate: `localhost`, then `ngmt.local`.
pub fn lab_subject_names() -> (names: Vec<String>)
    ensures
        names@.len() == 2,
        names@[0]@ == "localhost"@,
        names@[1]@ == "ngmt.local"@,
{
    let mut names: Vec<String> = Vec::new();
    names.push("localhost".to_owned());
    names.push("ngmt.local".to_owned());
    names
}

/// The lab identity made of one certificate and its PKCS#8 key.
pub fn lab_identity(cert: Vec<u8>, key: Vec<u8>) -> (r: (Vec<Vec<u8>>, PrivateKey))
    ensures
        r.0@.len() == 1,
        r.0@[0]@ == cert@,
        r.1.kind == KEY_PKCS8,
        r.1.der@ == key@,
{
    let ghost c = cert@;
    let mut certs: Vec<Vec<u8>> = Vec::new();
    certs.push(cert);
    assert(certs@[0]@ == c);
    (certs, PrivateKey { kind: KEY_PKCS8, der: key })
}

/// A self-signed lab identity for the names of [`lab_subject_names`]: the
/// generated certificate and its PKCS#8 key, as [`lab_identity`] lays them out.
pub fn generate_certs() -> (r: Result<(Vec<Vec<u8>>, PrivateKey), String>)
    ensures
        r matches Ok((certs, key)) ==> {
            &&& certs@.len() == 1
            &&& key.kind == KEY_PKCS8
            &&& key.der@.len() == p256_pkcs8_len()
            &&& key.der@.take(6) == p256_pkcs8_head()
            &&& certs@[0]@.len() > p256_pkcs8_len()
        },
{
    match self_signed_certificate(lab_subject_names()) {
        Ok((cert, key)) => Ok(lab_identity(cert, key)),
        Err(e) => Err(e),
    }
}

} // verus!
