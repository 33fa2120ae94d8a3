//! Device certificates and their fingerprints.

use vstd::prelude::*;

use crate::bytes::contents;
use crate::digest::{sha256, sha256_of};
use crate::hexcodec;
use crate::sync::error::{SyncError, SyncErrorView};
use crate::text::{same_bytes, texts};

verus! {

/// The certificate of this device.
#[derive(Debug)]
pub struct DeviceCert {
    pub cert_pem: String,
    pub key_pem: String,
    pub fingerprint: [u8; 32],
}

/// A fresh certificate with its key.
#[derive(Debug)]
pub struct SelfSigned {
    pub der: Vec<u8>,
    pub cert_pem: String,
    pub key_pem: String,
}

/// The longest certificate that is certain to be read back from its text, in
/// bytes.
pub const MAX_CERT_BYTES: usize = 1048576;

/// The certificates that a text in PEM holds, in order, or the message of the
/// error that reading them gives.
pub uninterp spec fn pem_certificates(pem: Seq<char>) -> Result<Seq<Seq<u8>>, Seq<char>>;

/// The private keys in PKCS 8 that a text in PEM holds, in order, or the message of
/// the error that reading them gives.
pub uninterp spec fn pem_keys(pem: Seq<char>) -> Result<Seq<Seq<u8>>, Seq<char>>;

/// `rustls_pemfile::certs`: all certificates in the text, by their name, or the
/// message of the first error.
#[verifier::external_body]
pub(crate) fn read_certificates(pem: &str) -> (r: Result<Vec<Vec<u8>>, String>)
    ensures
        match r {
            Ok(certs) => pem_certificates(pem@) == Ok::<Seq<Seq<u8>>, Seq<char>>(
                contents(certs@),
            ),
            Err(m) => pem_certificates(pem@) == Err::<Seq<Seq<u8>>, Seq<char>>(m@),
        },
{
    rustls_pemfile::certs(&mut pem.as_bytes())
        .map(|cert| cert.map(|der| der.to_vec()).map_err(|e| e.to_string()))
        .collect()
}

/// `rustls_pemfile::pkcs8_private_keys`: all PKCS 8 keys in the text, by their
/// name, or the message of the first error.
#[verifier::external_body]
pub(crate) fn read_keys(pem: &str) -> (r: Result<Vec<Vec<u8>>, String>)
    ensures
        match r {
            Ok(keys) => pem_keys(pem@) == Ok::<Seq<Seq<u8>>, Seq<char>>(contents(keys@)),
            Err(m) => pem_keys(pem@) == Err::<Seq<Seq<u8>>, Seq<char>>(m@),
        },
{
    rustls_pemfile::pkcs8_private_keys(&mut pem.as_bytes())
        .map(|key| key.map(|der| der.secret_pkcs8_der().to_vec()).map_err(|e| e.to_string()))
        .collect()
}

/// Whether bytes are a certificate that `rcgen` makes for some names, a common
/// name and an alternative name, one text is the same certificate in PEM, and
/// another is the key that it was made and signed with in PEM.
pub uninterp spec fn self_signed_for(
    der: Seq<u8>,
    cert_pem: Seq<char>,
    key_pem: Seq<char>,
    names: Seq<Seq<char>>,
    common_name: Seq<char>,
    alternative: Seq<char>,
) -> bool;

/// `rcgen`: `KeyPair::generate`, `CertificateParams::new` for `names`, the common
/// name and the one alternative name, and `self_signed`. The key is fresh, so it
/// is only said that what comes out is a certificate for those names, as bytes
/// and as PEM, and its key; an error is handed on as its message. The PEM text of
/// a certificate that is not very long is read as that one certificate, and the
/// PEM text of the key as one key in PKCS 8.
#[verifier::external_body]
pub(crate) fn self_signed(names: Vec<String>, common_name: &str, alternative: &str) -> (r: Result<
    SelfSigned,
    String,
>)
    ensures
        r is Ok ==> self_signed_for(
            r->Ok_0.der@,
            r->Ok_0.cert_pem@,
            r->Ok_0.key_pem@,
            texts(names@),
            common_name@,
            alternative@,
        ),
        r is Ok && r->Ok_0.der@.len() <= MAX_CERT_BYTES ==> pem_certificates(r->Ok_0.cert_pem@)
            == Ok::<Seq<Seq<u8>>, Seq<char>>(seq![r->Ok_0.der@]),
        r is Ok ==> pem_keys(r->Ok_0.key_pem@) is Ok && pem_keys(r->Ok_0.key_pem@)->Ok_0.len()
            == 1,
{
    let key = rcgen::KeyPair::generate().map_err(|e| e.to_string())?;
    let mut params = rcgen::CertificateParams::new(names).map_err(|e| e.to_string())?;
    let mut dn = rcgen::DistinguishedName::new();
    dn.push(rcgen::DnType::CommonName, common_name);
    params.distinguished_name = dn;
    let dns = alternative.try_into().map_err(|e: rcgen::Error| e.to_string())?;
    params.subject_alt_names = vec![rcgen::SanType::DnsName(dns)];
    let cert = params.self_signed(&key).map_err(|e| e.to_string())?;
    let der = cert.der().to_vec();
    Ok(SelfSigned { der, cert_pem: cert.pem(), key_pem: key.serialize_pem() })
}

impl DeviceCert {
    /// The certificate of a device from what generating it gave.
    pub fn from_generated(generated: Result<SelfSigned, String>) -> (r: Result<
        DeviceCert,
        SyncError,
    >)
        ensures
            match generated {
                Ok(g) => {
                    &&& r matches Ok(c)
                    &&& c.cert_pem == g.cert_pem
                    &&& c.key_pem == g.key_pem
                    &&& c.fingerprint@ == sha256_of(g.der@)
                },
                Err(m) => r matches Err(e) && e@ == SyncErrorView::Tls(m@),
            },
    {
        match generated {
            Ok(g) => {
                let fingerprint = fingerprint_of_der(g.der.as_slice());
                Ok(DeviceCert { cert_pem: g.cert_pem, key_pem: g.key_pem, fingerprint })
            },
            Err(m) => Err(SyncError::Tls(m)),
        }
    }

    /// A fresh certificate for a device, made out to its name, with its key. Its
    /// fingerprint is the digest of the certificate's bytes; failures are failures
    /// of TLS. Unless it is very long, it is the one certificate that connections are
    /// made with, and it is read from its texts with the same fingerprint.
    pub fn generate(device_name: &str) -> (r: Result<DeviceCert, SyncError>)
        ensures
            match r {
                Ok(c) => exists|der: Seq<u8>|
                    {
                        &&& self_signed_for(
                            der,
                            c.cert_pem@,
                            c.key_pem@,
                            seq!["asterism.local"@, "localhost"@],
                            device_name@,
                            "asterism.local"@,
                        )
                        &&& c.fingerprint@ == #[trigger] sha256_of(der)
                        &&& der.len() <= MAX_CERT_BYTES ==> {
                            &&& tls_parts(c.cert_pem@, c.key_pem@) is Ok
                            &&& tls_parts(c.cert_pem@, c.key_pem@)->Ok_0.1 == seq![der]
                            &&& pem_fingerprint(c.cert_pem@) == Ok::<Seq<u8>, SyncErrorView>(
                                c.fingerprint@,
                            )
                        }
                    },
                Err(e) => e@ is Tls,
            },
    {
        let mut names: Vec<String> = Vec::new();
        names.push("asterism.local".to_owned());
        names.push("localhost".to_owned());
        assert(texts(names@) =~= seq!["asterism.local"@, "localhost"@]);
        DeviceCert::from_generated(self_signed(names, device_name, "asterism.local"))
    }

    /// The certificate of a device from its texts. Its fingerprint is that of the
    /// first certificate in them.
    pub fn from_pem(cert_pem: String, key_pem: String) -> (r: Result<DeviceCert, SyncError>)
        ensures
            match r {
                Ok(c) => {
                    &&& c.cert_pem == cert_pem
                    &&& c.key_pem == key_pem
                    &&& pem_fingerprint(cert_pem@) == Ok::<Seq<u8>, SyncErrorView>(c.fingerprint@)
                },
                Err(e) => pem_fingerprint(cert_pem@) == Err::<Seq<u8>, SyncErrorView>(e@),
            },
    {
        let certs = match read_certificates(cert_pem.as_str()) {
            Ok(certs) => certs,
            Err(m) => return Err(SyncError::Tls(m)),
        };
        if certs.len() == 0 {
            return Err(SyncError::Tls("no certificate".to_owned()));
        }
        let fingerprint = fingerprint_of_der(certs[0].as_slice());
        Ok(DeviceCert { cert_pem, key_pem, fingerprint })
    }

    /// The fingerprint as hexadecimal text.
    pub fn fingerprint_hex(&self) -> (r: String)
        ensures
            r@ == hexcodec::hex_text(self.fingerprint@),
    {
        hexcodec::encode(self.fingerprint.as_slice())
    }
}

/// The fingerprint of the first certificate in a text, or why there is none.
pub open spec fn pem_fingerprint(cert_pem: Seq<char>) -> Result<Seq<u8>, SyncErrorView> {
    match pem_certificates(cert_pem) {
        Err(m) => Err(SyncErrorView::Tls(m)),
        Ok(certs) => if certs.len() == 0 {
            Err(SyncErrorView::Tls("no certificate"@))
        } else {
            Ok(sha256_of(certs[0]))
        },
    }
}

/// The fingerprint of a certificate.
pub fn fingerprint_of_der(der: &[u8]) -> (r: [u8; 32])
    ensures
        r@ == sha256_of(der@),
{
    sha256(der)
}

/// The fingerprint of a certificate as hexadecimal text, in which it is noted.
pub fn fingerprint_text(der: &[u8]) -> (r: String)
    ensures
        r@ == hexcodec::hex_text(sha256_of(der@)),
{
    let fingerprint = fingerprint_of_der(der);
    hexcodec::encode(fingerprint.as_slice())
}

/// Whether the certificate that the other side shows is the pinned one. Nothing
/// else of it is looked at.
pub fn verify_pinned(der: &[u8], expected: &[u8; 32]) -> (r: Result<(), SyncError>)
    ensures
        match r {
            Ok(_) => sha256_of(der@) == expected@,
            Err(e) => sha256_of(der@) != expected@ && e@ == SyncErrorView::Tls(
                "certificate fingerprint mismatch"@,
            ),
        },
{
    let actual = fingerprint_of_der(der);
    if same_bytes(actual.as_slice(), expected.as_slice()) {
        Ok(())
    } else {
        Err(SyncError::Tls("certificate fingerprint mismatch".to_owned()))
    }
}

/// The key that goes with certificates, from the keys in its text: the last one.
pub fn pick_key(keys: Vec<Vec<u8>>) -> (r: Result<Vec<u8>, SyncError>)
    ensures
        match r {
            Ok(key) => keys@.len() > 0 && key == keys@.last(),
            Err(e) => keys@.len() == 0 && e@ == SyncErrorView::Tls("no key"@),
        },
{
    let mut rest = keys;
    match rest.pop() {
        Some(key) => Ok(key),
        None => Err(SyncError::Tls("no key".to_owned())),
    }
}

/// The key and the certificates that two texts hold, or why there are none.
pub open spec fn tls_parts(cert_pem: Seq<char>, key_pem: Seq<char>) -> Result<
    (Seq<u8>, Seq<Seq<u8>>),
    SyncErrorView,
> {
    match pem_certificates(cert_pem) {
        Err(m) => Err(SyncErrorView::Tls(m)),
        Ok(certs) => match pem_keys(key_pem) {
            Err(m) => Err(SyncErrorView::Tls(m)),
            Ok(keys) => if keys.len() == 0 {
                Err(SyncErrorView::Tls("no key"@))
            } else {
                Ok((keys.last(), certs))
            },
        },
    }
}

/// The key and the certificates of a device.
pub fn key_and_certs(cert: &DeviceCert) -> (r: Result<(Vec<u8>, Vec<Vec<u8>>), SyncError>)
    ensures
        match r {
            Ok((key, certs)) => tls_parts(cert.cert_pem@, cert.key_pem@) == Ok::<
                (Seq<u8>, Seq<Seq<u8>>),
                SyncErrorView,
            >((key@, contents(certs@))),
            Err(e) => tls_parts(cert.cert_pem@, cert.key_pem@) == Err::<
                (Seq<u8>, Seq<Seq<u8>>),
                SyncErrorView,
            >(e@),
        },
{
    let certs = match read_certificates(cert.cert_pem.as_str()) {
        Ok(certs) => certs,
        Err(m) => return Err(SyncError::Tls(m)),
    };
    let keys = match read_keys(cert.key_pem.as_str()) {
        Ok(keys) => keys,
        Err(m) => return Err(SyncError::Tls(m)),
    };
    match pick_key(keys) {
        Ok(key) => Ok((key, certs)),
        Err(e) => Err(e),
    }
}

/// A device that is known by the fingerprint of its certificate is recognised: the
/// first certificate that it makes connections with has that fingerprint.
pub proof fn shown_certificate_has_the_fingerprint(
    cert_pem: Seq<char>,
    key_pem: Seq<char>,
    fingerprint: Seq<u8>,
)
    requires
        pem_fingerprint(cert_pem) == Ok::<Seq<u8>, SyncErrorView>(fingerprint),
        tls_parts(cert_pem, key_pem) is Ok,
    ensures
        tls_parts(cert_pem, key_pem)->Ok_0.1.len() > 0,
        sha256_of(tls_parts(cert_pem, key_pem)->Ok_0.1[0]) == fingerprint,
{
}

/// What a connection that other devices make is served with. Whatever
/// certificate they show is accepted.
#[derive(Debug)]
pub struct ServerConfig {
    pub key: Vec<u8>,
    pub certs: Vec<Vec<u8>>,
}

/// What a connection to another device is made with, and the fingerprint that its
/// certificate must have.
#[derive(Debug)]
pub struct ClientConfig {
    pub expected: [u8; 32],
    pub key: Vec<u8>,
    pub certs: Vec<Vec<u8>>,
}

/// What connections to this device are served with.
pub fn server_config(cert: &DeviceCert) -> (r: Result<ServerConfig, SyncError>)
    ensures
        match r {
            Ok(c) => tls_parts(cert.cert_pem@, cert.key_pem@) == Ok::<
                (Seq<u8>, Seq<Seq<u8>>),
                SyncErrorView,
            >((c.key@, contents(c.certs@))),
            Err(e) => tls_parts(cert.cert_pem@, cert.key_pem@) == Err::<
                (Seq<u8>, Seq<Seq<u8>>),
                SyncErrorView,
            >(e@),
        },
{
    match key_and_certs(cert) {
        Ok((key, certs)) => Ok(ServerConfig { key, certs }),
        Err(e) => Err(e),
    }
}

/// What a connection to the device with a fingerprint is made with.
pub fn client_config_pinned(expected: [u8; 32], client_cert: &DeviceCert) -> (r: Result<
    ClientConfig,
    SyncError,
>)
    ensures
        match r {
            Ok(c) => c.expected == expected && tls_parts(
                client_cert.cert_pem@,
                client_cert.key_pem@,
            ) == Ok::<(Seq<u8>, Seq<Seq<u8>>), SyncErrorView>((c.key@, contents(c.certs@))),
            Err(e) => tls_parts(client_cert.cert_pem@, client_cert.key_pem@) == Err::<
                (Seq<u8>, Seq<Seq<u8>>),
                SyncErrorView,
            >(e@),
        },
{
    match key_and_certs(client_cert) {
        Ok((key, certs)) => Ok(ClientConfig { expected, key, certs }),
        Err(e) => Err(e),
    }
}

impl ClientConfig {
    /// Whether the certificate that the other side shows is the expected one.
    pub fn verify_server_cert(&self, end_entity: &[u8]) -> (r: Result<(), SyncError>)
        ensures
            match r {
                Ok(_) => sha256_of(end_entity@) == self.expected@,
                Err(e) => sha256_of(end_entity@) != self.expected@ && e@ == SyncErrorView::Tls(
                    "certificate fingerprint mismatch"@,
                ),
            },
    {
        verify_pinned(end_entity, &self.expected)
    }
}

/// Connections are made with all certificates of the one text and the last key of the
/// other, whenever both can be read and there is a key.
pub proof fn readable_texts_make_connections(cert_pem: Seq<char>, key_pem: Seq<char>)
    ensures
        tls_parts(cert_pem, key_pem) is Ok <==> pem_certificates(cert_pem) is Ok && pem_keys(
            key_pem,
        ) is Ok && pem_keys(key_pem)->Ok_0.len() > 0,
        tls_parts(cert_pem, key_pem) is Ok ==> {
            &&& tls_parts(cert_pem, key_pem)->Ok_0.1 == pem_certificates(cert_pem)->Ok_0
            &&& tls_parts(cert_pem, key_pem)->Ok_0.0 == pem_keys(key_pem)->Ok_0[pem_keys(
                key_pem,
            )->Ok_0.len() - 1]
        },
        tls_parts(cert_pem, key_pem) is Err ==> tls_parts(cert_pem, key_pem)->Err_0 is Tls,
        pem_fingerprint(cert_pem) is Ok <==> pem_certificates(cert_pem) is Ok && pem_certificates(
            cert_pem,
        )->Ok_0.len() > 0,
        pem_fingerprint(cert_pem) is Ok ==> pem_fingerprint(cert_pem)->Ok_0 == sha256_of(
            pem_certificates(cert_pem)->Ok_0[0],
        ),
        pem_fingerprint(cert_pem) is Err ==> pem_fingerprint(cert_pem)->Err_0 is Tls,
{
}


/// A certificate that is read from its text is the one whose fingerprint is checked: a
/// server with it, `s`, is accepted by a client that expects its fingerprint, and no other
/// certificate is that does not have that fingerprint.
pub proof fn expected_certificates_are_accepted(
    cert_pem: String,
    key_pem: String,
    c: DeviceCert,
    s: ServerConfig,
    other: DeviceCert,
    client: ClientConfig,
    shown: &[u8],
    r: Result<(), SyncError>,
    stranger: &[u8],
    x: Result<(), SyncError>,
    p: Result<(), SyncError>,
)
    requires
        call_ensures(DeviceCert::from_pem, (cert_pem, key_pem), Ok::<DeviceCert, SyncError>(c)),
        call_ensures(server_config, (&c,), Ok::<ServerConfig, SyncError>(s)),
        call_ensures(
            client_config_pinned,
            (c.fingerprint, &other),
            Ok::<ClientConfig, SyncError>(client),
        ),
        s.certs@.len() > 0 ==> shown@ == s.certs@[0]@,
        call_ensures(ClientConfig::verify_server_cert, (&client, shown), r),
        call_ensures(ClientConfig::verify_server_cert, (&client, stranger), x),
        call_ensures(verify_pinned, (stranger, &c.fingerprint), p),
    ensures
        s.certs@.len() > 0,
        r is Ok,
        x is Ok <==> sha256_of(stranger@) == sha256_of(shown@),
        p is Ok <==> x is Ok,
{
    shown_certificate_has_the_fingerprint(cert_pem@, key_pem@, c.fingerprint@);
    assert(contents(s.certs@).len() == s.certs@.len());
    assert(contents(s.certs@)[0] == s.certs@[0]@);
}

/// A certificate is read just if its text holds one, with the fingerprint of the first; a
/// connection takes the last key, and there must be one.
pub proof fn certificates_are_read(
    cert_pem: String,
    key_pem: String,
    r: Result<DeviceCert, SyncError>,
    keys: Vec<Vec<u8>>,
    k: Result<Vec<u8>, SyncError>,
    der: &[u8],
    fp: [u8; 32],
    text: String,
)
    requires
        call_ensures(DeviceCert::from_pem, (cert_pem, key_pem), r),
        call_ensures(pick_key, (keys,), k),
        call_ensures(fingerprint_of_der, (der,), fp),
        call_ensures(fingerprint_text, (der,), text),
    ensures
        r is Ok <==> pem_certificates(cert_pem@) is Ok && pem_certificates(cert_pem@)->Ok_0.len()
            > 0,
        r is Ok ==> {
            &&& r->Ok_0.fingerprint@ == sha256_of(pem_certificates(cert_pem@)->Ok_0[0])
            &&& r->Ok_0.cert_pem == cert_pem && r->Ok_0.key_pem == key_pem
        },
        k is Ok <==> keys@.len() > 0,
        k is Ok ==> k->Ok_0 == keys@[keys@.len() - 1],
        fp@ == sha256_of(der@),
        hexcodec::hex_bytes(text@) == sha256_of(der@),
{
    hexcodec::decode_restores_encode(sha256_of(der@));
}

/// A certificate that was made is used under its own digest.
pub proof fn made_certificates_are_used(
    generated: Result<SelfSigned, String>,
    r: Result<DeviceCert, SyncError>,
)
    requires
        call_ensures(DeviceCert::from_generated, (generated,), r),
    ensures
        r is Ok <==> generated is Ok,
        r is Ok ==> {
            &&& r->Ok_0.fingerprint@ == sha256_of(generated->Ok_0.der@)
            &&& r->Ok_0.cert_pem@ == generated->Ok_0.cert_pem@
            &&& r->Ok_0.key_pem@ == generated->Ok_0.key_pem@
        },
{
}


} // verus!
