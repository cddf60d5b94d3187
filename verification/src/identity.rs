//! Device identity: a device ID, a self-signed certificate, and the
//! certificate's fingerprint as the identity on the network.

use vstd::prelude::*;
use crate::digest::{self, digest_hex, is_hex_digit};
use crate::ids::{self, is_uuid};
use crate::protocol::{PeerInfo, PeerInfoView};
use crate::text::{self, opt_view, views};

verus! {

/// Metadata file name.
pub const META_FILE: &'static str = "identity.json";

/// Certificate file name.
pub const CERT_FILE: &'static str = "cert.der";

/// Private key file name.
pub const KEY_FILE: &'static str = "key.der";

/// The subject of the certificate, and the name of a device without another.
pub const DEFAULT_NAME: &'static str = "lanecho";

/// The error of the `rcgen` crate.
#[verifier::external_type_specification]
#[verifier::external_body]
pub struct ExRcgenError(rcgen::Error);

/// `rcgen::KeyPair::generate` and `rcgen::CertificateParams::self_signed`: a
/// new key and a self-signed certificate for it, both in DER, and so neither of
/// them empty. The key is random, so nothing more is claimed of the bytes.
#[verifier::external_body]
fn generate(subject: &str) -> (r: Result<(Vec<u8>, Vec<u8>), rcgen::Error>)
    ensures
        r is Ok ==> r->Ok_0.0@.len() > 0 && r->Ok_0.1@.len() > 0,
{
    let key = rcgen::KeyPair::generate()?;
    let params = rcgen::CertificateParams::new(vec![subject.to_owned()])?;
    let cert = params.self_signed(&key)?;
    Ok((cert.der().to_vec(), key.serialize_der()))
}

/// The text of a `rcgen::Error`, for display.
#[verifier::external_body]
fn describe(error: &rcgen::Error) -> (r: String) {
    format!("{error}")
}

/// Identity errors.
#[derive(Debug, PartialEq, Eq)]
pub enum IdentityError {
    /// An identity file could not be read or written
    Io(String),
    /// No certificate could be made
    CertGen(String),
    /// The metadata cannot be parsed
    Meta(String),
}

/// What an [`IdentityError`] stands for.
#[verifier::ext_equal]
pub enum IdentityErrorView {
    Io(Seq<char>),
    CertGen(Seq<char>),
    Meta(Seq<char>),
}

impl View for IdentityError {
    type V = IdentityErrorView;

    open spec fn view(&self) -> IdentityErrorView {
        match *self {
            IdentityError::Io(s) => IdentityErrorView::Io(s@),
            IdentityError::CertGen(s) => IdentityErrorView::CertGen(s@),
            IdentityError::Meta(s) => IdentityErrorView::Meta(s@),
        }
    }
}

impl IdentityError {
    /// The text shown for the error.
    pub fn message(&self) -> (r: String)
        ensures
            r@ == (match self@ {
                IdentityErrorView::Io(s) => "身份文件读写失败: "@ + s,
                IdentityErrorView::CertGen(s) => "证书生成失败: "@ + s,
                IdentityErrorView::Meta(s) => "身份元数据解析失败: "@ + s,
            }),
    {
        match self {
            IdentityError::Io(s) => text::join("身份文件读写失败: ", s.as_str()),
            IdentityError::CertGen(s) => text::join("证书生成失败: ", s.as_str()),
            IdentityError::Meta(s) => text::join("身份元数据解析失败: ", s.as_str()),
        }
    }
}

/// What the metadata file holds.
#[derive(Debug, PartialEq, Eq)]
pub struct IdentityMeta {
    /// Unique device ID
    pub device_id: String,
    /// Display name that the user chose
    pub display_name: Option<String>,
}

/// What an [`IdentityMeta`] stands for.
#[verifier::ext_equal]
pub struct MetaView {
    pub device_id: Seq<char>,
    pub display_name: Option<Seq<char>>,
}

impl View for IdentityMeta {
    type V = MetaView;

    open spec fn view(&self) -> MetaView {
        MetaView { device_id: self.device_id@, display_name: opt_view(self.display_name) }
    }
}

/// The device's identity.
pub struct DeviceIdentity {
    /// Unique device ID
    pub device_id: String,
    /// Display name
    pub display_name: String,
    /// Fingerprint of the certificate
    pub fingerprint: String,
    /// Certificate in DER
    pub cert_der: Vec<u8>,
    key_der: Vec<u8>,
}

/// What a [`DeviceIdentity`] stands for.
#[verifier::ext_equal]
pub struct IdentityView {
    pub device_id: Seq<char>,
    pub display_name: Seq<char>,
    pub fingerprint: Seq<char>,
    pub cert_der: Seq<u8>,
    pub key_der: Seq<u8>,
}

impl View for DeviceIdentity {
    type V = IdentityView;

    closed spec fn view(&self) -> IdentityView {
        IdentityView {
            device_id: self.device_id@,
            display_name: self.display_name@,
            fingerprint: self.fingerprint@,
            cert_der: self.cert_der@,
            key_der: self.key_der@,
        }
    }
}

/// The name of a device: the one that the user chose, else that of the host,
/// else a fixed one.
pub open spec fn shown_name(chosen: Option<Seq<char>>, host: Option<Seq<char>>) -> Seq<char> {
    match chosen {
        Some(name) => name,
        None => match host {
            Some(name) => name,
            None => DEFAULT_NAME@,
        },
    }
}

/// The identity made of its parts; the fingerprint is that of the certificate.
pub open spec fn assembled(meta: MetaView, host: Option<Seq<char>>, cert: Seq<u8>, key: Seq<u8>) -> IdentityView {
    IdentityView {
        device_id: meta.device_id,
        display_name: shown_name(meta.display_name, host),
        fingerprint: digest_hex(cert),
        cert_der: cert,
        key_der: key,
    }
}

/// The fingerprint of a certificate: the digest of its DER form.
pub fn fingerprint_of(cert: &[u8]) -> (r: String)
    ensures
        r@ == digest_hex(cert@),
        r@.len() == 64,
        forall|i: int| 0 <= i < 64 ==> is_hex_digit(#[trigger] r@[i]),
{
    digest::digest(cert)
}

/// The name of a device without a chosen one.
pub fn default_display_name(host: &Option<String>) -> (r: String)
    ensures
        r@ == shown_name(None, opt_view(*host)),
{
    match host {
        Some(name) => name.clone(),
        None => DEFAULT_NAME.to_owned(),
    }
}

/// Whether the identity files are all there; otherwise a new identity is made.
pub fn is_complete(meta: bool, cert: bool, key: bool) -> (r: bool)
    ensures
        r == (meta && cert && key),
{
    meta && cert && key
}

impl DeviceIdentity {
    /// Puts an identity together.
    pub fn from_parts(meta: &IdentityMeta, host: &Option<String>, cert: Vec<u8>, key: Vec<u8>) -> (r: DeviceIdentity)
        ensures
            r@ == assembled(meta@, opt_view(*host), cert@, key@),
    {
        let display_name = match &meta.display_name {
            Some(name) => name.clone(),
            None => default_display_name(host),
        };
        DeviceIdentity {
            device_id: meta.device_id.clone(),
            display_name,
            fingerprint: fingerprint_of(cert.as_slice()),
            cert_der: cert,
            key_der: key,
        }
    }

    /// The stored identity. Metadata that cannot be parsed is made anew, with
    /// a fresh device ID: the certificate is the identity. The second result
    /// is metadata to write.
    pub fn load(meta: Option<IdentityMeta>, host: &Option<String>, cert: Vec<u8>, key: Vec<u8>) -> (r: (
        DeviceIdentity,
        Option<IdentityMeta>,
    ))
        ensures
            match meta {
                Some(m) => r.0@ == assembled(m@, opt_view(*host), cert@, key@) && r.1 is None,
                None => r.1 is Some && is_uuid(r.1->0@.device_id) && r.1->0@.display_name is None
                    && r.0@ == assembled(r.1->0@, opt_view(*host), cert@, key@),
            },
    {
        match meta {
            Some(m) => (DeviceIdentity::from_parts(&m, host, cert, key), None),
            None => {
                let fresh = IdentityMeta { device_id: ids::new_id(), display_name: None };
                (DeviceIdentity::from_parts(&fresh, host, cert, key), Some(fresh))
            },
        }
    }

    /// The identity of a new certificate and its key, in this order, and the
    /// metadata to write with it.
    pub fn from_pair(pair: (Vec<u8>, Vec<u8>), host: &Option<String>) -> (r: (DeviceIdentity, IdentityMeta))
        ensures
            is_uuid(r.1@.device_id),
            r.1@.display_name is None,
            r.0@ == assembled(r.1@, opt_view(*host), pair.0@, pair.1@),
            r.0@.cert_der == pair.0@,
            r.0@.key_der == pair.1@,
    {
        let meta = IdentityMeta { device_id: ids::new_id(), display_name: None };
        (DeviceIdentity::from_parts(&meta, host, pair.0, pair.1), meta)
    }

    /// A new identity, and the metadata to write with it.
    pub fn create(host: &Option<String>) -> (r: Result<(DeviceIdentity, IdentityMeta), IdentityError>)
        ensures
            match r {
                Ok(made) => is_uuid(made.1@.device_id) && made.1@.display_name is None && made.0@
                    == assembled(made.1@, opt_view(*host), made.0@.cert_der, made.0@.key_der)
                    && made.0@.cert_der.len() > 0 && made.0@.key_der.len() > 0,
                Err(e) => e@ is CertGen,
            },
    {
        match generate(DEFAULT_NAME) {
            Err(e) => Err(IdentityError::CertGen(describe(&e))),
            Ok(pair) => Ok(DeviceIdentity::from_pair(pair, host)),
        }
    }

    /// A copy of the private key in DER.
    pub fn key_der(&self) -> (r: Vec<u8>)
        ensures
            r@ == self@.key_der,
    {
        let copy: Vec<u8> = self.key_der.clone();
        proof {
            assert(copy@ =~= self.key_der@);
        }
        copy
    }

    /// The device info that others get.
    pub fn peer_info(&self, platform: &str, os_version: &str) -> (r: PeerInfo)
        ensures
            r@ == (PeerInfoView {
                device_id: self@.device_id,
                name: self@.display_name,
                fingerprint: self@.fingerprint,
                platform: platform@,
                os_version: Some(os_version@),
            }),
    {
        PeerInfo {
            device_id: self.device_id.clone(),
            name: self.display_name.clone(),
            fingerprint: self.fingerprint.clone(),
            platform: platform.to_owned(),
            os_version: Some(os_version.to_owned()),
        }
    }
}

/// The metadata with another display name; nothing reverts to the host name.
pub fn persist_display_name(meta: IdentityMeta, name: Option<String>) -> (r: IdentityMeta)
    ensures
        r@ == (MetaView { device_id: meta@.device_id, display_name: opt_view(name) }),
{
    IdentityMeta { device_id: meta.device_id, display_name: name }
}

/// The description of the operating system: its name and version, with the
/// official spelling of macOS.
pub fn os_version(name: &str, version: &str) -> (r: String)
    ensures
        r@ == (if name@ == "Mac OS"@ {
            "macOS"@
        } else {
            name@
        }) + " "@ + version@,
{
    let spelled = if text::same(name, "Mac OS") {
        "macOS"
    } else {
        name
    };
    let head = text::join(spelled, " ");
    text::join(head.as_str(), version)
}

/// Holds a server certificate against the pinned fingerprint; without one any
/// certificate will do. The error is the text for the TLS layer.
pub fn check_pin(expected: &Option<String>, cert: &[u8]) -> (r: Result<(), String>)
    ensures
        match r {
            Ok(_) => opt_view(*expected) is None || opt_view(*expected) == Some(digest_hex(cert@)),
            Err(e) => opt_view(*expected) is Some && opt_view(*expected)->0 != digest_hex(cert@) && e@
                == "对端证书指纹不匹配: "@ + digest_hex(cert@),
        },
{
    match expected {
        None => Ok(()),
        Some(pin) => {
            let actual = fingerprint_of(cert);
            if text::same(pin.as_str(), actual.as_str()) {
                Ok(())
            } else {
                Err(text::join("对端证书指纹不匹配: ", actual.as_str()))
            }
        },
    }
}

/// The fingerprint of a peer's certificate chain: that of the first
/// certificate.
pub fn peer_fingerprint(certs: &Vec<Vec<u8>>) -> (r: Option<String>)
    ensures
        opt_view(r) == (if certs.len() == 0 {
            None
        } else {
            Some(digest_hex(views(certs@)[0]))
        }),
{
    if certs.len() == 0 {
        None
    } else {
        proof {
            assert(views(certs@)[0] == certs@[0]@);
        }
        Some(fingerprint_of(certs[0].as_slice()))
    }
}

/// Loading what was stored gives the identity back; renaming keeps the
/// fingerprint and the device ID.
pub proof fn law_identity_is_stable(
    meta: MetaView,
    name: Option<Seq<char>>,
    host: Option<Seq<char>>,
    cert: Seq<u8>,
    key: Seq<u8>,
)
    ensures
        ({
            let renamed = MetaView { device_id: meta.device_id, display_name: name };
            let before = assembled(meta, host, cert, key);
            let after = assembled(renamed, host, cert, key);
            &&& after.fingerprint == before.fingerprint
            &&& after.device_id == before.device_id
            &&& after.display_name == shown_name(name, host)
        }),
{
}

/// The name that is shown is the chosen one, else that of the host, else a fixed
/// one.
pub proof fn law_shown_name(chosen: Seq<char>, host: Seq<char>, any: Option<Seq<char>>)
    ensures
        shown_name(Some(chosen), any) == chosen,
        shown_name(None, Some(host)) == host,
        shown_name(None, None) == "lanecho"@,
{
}

/// The identity is its certificate: the fingerprint is the digest of it, whatever
/// the device is called. Key and device ID are as they were stored.
pub proof fn law_certificate_is_the_identity(
    meta: MetaView,
    other: MetaView,
    host: Option<Seq<char>>,
    cert: Seq<u8>,
    key: Seq<u8>,
)
    ensures
        assembled(meta, host, cert, key).fingerprint == digest_hex(cert),
        assembled(meta, host, cert, key).fingerprint == assembled(other, None, cert, key).fingerprint,
        assembled(meta, host, cert, key).cert_der == cert,
        assembled(meta, host, cert, key).key_der == key,
        assembled(meta, host, cert, key).device_id == meta.device_id,
        meta.display_name is Some ==> assembled(meta, host, cert, key).display_name
            == meta.display_name->0,
        meta.display_name is None && host is Some ==> assembled(meta, host, cert, key).display_name
            == host->0,
{
}

} // verus!
