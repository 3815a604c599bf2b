//! Certificates for serving WSS: from PEM files, or signed by their own key.
use crate::args::Args;
use crate::bigendian;
use crate::ip::IpAddr;
use crate::ip_laws;
use crate::text;
use rcgen::{CertificateParams, DistinguishedName, DnType, KeyPair};
use std::path::PathBuf;
use time::{Duration, OffsetDateTime};
use tokio_rustls::rustls::pki_types::PrivateKeyDer;
use vstd::prelude::*;
use vstd::utf8::*;

verus! {

/// How long a self-signed certificate is valid: ten years.
pub const SELF_SIGNED_SECS: u64 = 315_360_000;

pub const SELF_SIGNED_NAME: &'static str = "ws2tcp-router self-signed";

/// The last second of the year 9999, where certificates end.
pub const LAST_SECOND: u64 = 253_402_300_799;

/// 127.0.0.1
pub const LOCALHOST_V4: u32 = 0x7f00_0001;

/// ::1
pub const LOCALHOST_V6: u128 = 1;

/// Why there is no certificate or no key.
#[derive(Debug, Clone, Copy, PartialEq, Eq, Structural)]
pub enum TlsError {
    /// The certificates are no PEM.
    CertificateRead,
    /// There are no certificates.
    NoCertificates,
    /// The private key is no PEM.
    KeyRead,
    /// There is no private key.
    NoKey,
    /// The certificate cannot be for these names.
    Params,
    /// No private key could be made.
    KeyGeneration,
    /// The certificate could not be signed.
    SelfSigned,
}

impl TlsError {
    /// What the error says of the file at `path`.
    pub open spec fn spec_text(self, path: Seq<char>) -> Seq<char> {
        match self {
            TlsError::CertificateRead => "failed to read TLS certificate "@ + path,
            TlsError::NoCertificates => "TLS certificate "@ + path
                + " does not contain any certificates"@,
            TlsError::KeyRead => "failed to read TLS private key "@ + path,
            TlsError::NoKey => "TLS private key "@ + path + " does not contain a private key"@,
            TlsError::Params => "failed to create certificate params"@,
            TlsError::KeyGeneration => "failed to generate self-signed private key"@,
            TlsError::SelfSigned => "failed to generate self-signed certificate"@,
        }
    }

    /// What the error says of the file at `path`.
    pub fn text(&self, path: &str) -> (r: String)
        ensures
            r@ == self.spec_text(path@),
    {
        match self {
            TlsError::CertificateRead => "failed to read TLS certificate ".to_owned().concat(path),
            TlsError::NoCertificates => "TLS certificate ".to_owned().concat(path).concat(
                " does not contain any certificates",
            ),
            TlsError::KeyRead => "failed to read TLS private key ".to_owned().concat(path),
            TlsError::NoKey => "TLS private key ".to_owned().concat(path).concat(
                " does not contain a private key",
            ),
            TlsError::Params => "failed to create certificate params".to_owned(),
            TlsError::KeyGeneration => "failed to generate self-signed private key".to_owned(),
            TlsError::SelfSigned => "failed to generate self-signed certificate".to_owned(),
        }
    }
}

/// Where the certificate comes from.
#[derive(Debug)]
pub enum TlsSource<'a> {
    SelfSigned,
    Files { cert: &'a PathBuf, key: &'a PathBuf },
}

/// Where the certificate comes from, if the options give one.
pub fn build_tls_config(args: &Args) -> (r: Option<TlsSource<'_>>)
    ensures
        match r {
            Some(TlsSource::SelfSigned) => args.auto_self_signed_cert,
            Some(TlsSource::Files { cert, key }) => !args.auto_self_signed_cert && args.tls_cert
                == Some(*cert) && args.tls_key == Some(*key),
            None => !args.auto_self_signed_cert && (args.tls_cert is None || args.tls_key is None),
        },
        r is Some <==> args.has_tls(),
{
    if args.auto_self_signed_cert {
        return Some(TlsSource::SelfSigned);
    }
    match (&args.tls_cert, &args.tls_key) {
        (Some(cert), Some(key)) => Some(TlsSource::Files { cert, key }),
        _ => None,
    }
}

// ---------------------------------------------------------------------------------------------
// PEM files
// ---------------------------------------------------------------------------------------------

/// The certificates in PEM sections, if all sections can be read.
pub uninterp spec fn pem_certificates(pem: Seq<u8>) -> Option<Seq<Seq<u8>>>;

/// The first private key in PEM sections, if the sections up to it can be read.
pub uninterp spec fn pem_private_key(pem: Seq<u8>) -> Option<Option<PrivateKeyView>>;

/// A private key as DER, by the format that it is in.
#[derive(Debug, PartialEq, Eq)]
pub enum PrivateKey {
    Pkcs1 { der: Vec<u8> },
    Sec1 { der: Vec<u8> },
    Pkcs8 { der: Vec<u8> },
}

/// A private key, by its contents.
pub enum PrivateKeyView {
    Pkcs1 { der: Seq<u8> },
    Sec1 { der: Seq<u8> },
    Pkcs8 { der: Seq<u8> },
}

impl View for PrivateKey {
    type V = PrivateKeyView;

    open spec fn view(&self) -> PrivateKeyView {
        match self {
            PrivateKey::Pkcs1 { der } => PrivateKeyView::Pkcs1 { der: der@ },
            PrivateKey::Sec1 { der } => PrivateKeyView::Sec1 { der: der@ },
            PrivateKey::Pkcs8 { der } => PrivateKeyView::Pkcs8 { der: der@ },
        }
    }
}

/// Byte strings, by their contents.
pub open spec fn byte_views(v: Seq<Vec<u8>>) -> Seq<Seq<u8>> {
    v.map_values(|b: Vec<u8>| b@)
}

/// `rustls_pemfile::certs`, collected.
#[verifier::external_body]
fn read_certs(pem: &[u8]) -> (r: Option<Vec<Vec<u8>>>)
    ensures
        match r {
            Some(certs) => pem_certificates(pem@) == Some(byte_views(certs@)),
            None => pem_certificates(pem@) is None,
        },
{
    let mut reader = pem;
    let certs = rustls_pemfile::certs(&mut reader).collect::<Result<Vec<_>, _>>().ok()?;
    Some(certs.iter().map(|cert| cert.as_ref().to_vec()).collect())
}

/// `rustls_pemfile::private_key`: the key's bytes, and which of the three formats they are in.
#[verifier::external_body]
fn read_private_key(pem: &[u8]) -> (r: Option<Option<PrivateKey>>)
    ensures
        match r {
            Some(Some(key)) => pem_private_key(pem@) == Some(Some(key@)),
            Some(None) => pem_private_key(pem@) == Some(None::<PrivateKeyView>),
            None => pem_private_key(pem@) is None,
        },
{
    let mut reader = pem;
    Some(Some(match rustls_pemfile::private_key(&mut reader).ok()? {
        Some(PrivateKeyDer::Pkcs1(key)) => PrivateKey::Pkcs1 { der: key.secret_pkcs1_der().to_vec() },
        Some(PrivateKeyDer::Sec1(key)) => PrivateKey::Sec1 { der: key.secret_sec1_der().to_vec() },
        Some(PrivateKeyDer::Pkcs8(key)) => PrivateKey::Pkcs8 { der: key.secret_pkcs8_der().to_vec() },
        None => return Some(None),
        _ => return None,
    }))
}

/// The certificates that were read; there has to be one.
pub open spec fn usable_certs(certs: Option<Seq<Seq<u8>>>) -> Result<Seq<Seq<u8>>, TlsError> {
    match certs {
        None => Err(TlsError::CertificateRead),
        Some(certs) => if certs.len() == 0 {
            Err(TlsError::NoCertificates)
        } else {
            Ok(certs)
        },
    }
}

/// The private key that was read; there has to be one.
pub open spec fn usable_key(key: Option<Option<PrivateKeyView>>) -> Result<PrivateKeyView, TlsError> {
    match key {
        None => Err(TlsError::KeyRead),
        Some(None) => Err(TlsError::NoKey),
        Some(Some(key)) => Ok(key),
    }
}

/// Certificates, by their contents.
pub open spec fn certs_view(certs: Option<Vec<Vec<u8>>>) -> Option<Seq<Seq<u8>>> {
    match certs {
        Some(certs) => Some(byte_views(certs@)),
        None => None,
    }
}

/// A private key, by its contents.
pub open spec fn key_view(key: Option<Option<PrivateKey>>) -> Option<Option<PrivateKeyView>> {
    match key {
        Some(Some(key)) => Some(Some(key@)),
        Some(None) => Some(None),
        None => None,
    }
}

/// The certificates that were read; there has to be one.
pub fn check_certs(certs: Option<Vec<Vec<u8>>>) -> (r: Result<Vec<Vec<u8>>, TlsError>)
    ensures
        match r {
            Ok(v) => usable_certs(certs_view(certs)) == Ok::<Seq<Seq<u8>>, TlsError>(
                byte_views(v@),
            ),
            Err(e) => usable_certs(certs_view(certs)) == Err::<Seq<Seq<u8>>, TlsError>(e),
        },
{
    match certs {
        None => Err(TlsError::CertificateRead),
        Some(certs) => {
            assert(byte_views(certs@).len() == certs@.len());
            if certs.len() == 0 {
                Err(TlsError::NoCertificates)
            } else {
                Ok(certs)
            }
        },
    }
}

/// The private key that was read; there has to be one.
pub fn check_private_key(key: Option<Option<PrivateKey>>) -> (r: Result<PrivateKey, TlsError>)
    ensures
        match r {
            Ok(v) => usable_key(key_view(key)) == Ok::<PrivateKeyView, TlsError>(v@),
            Err(e) => usable_key(key_view(key)) == Err::<PrivateKeyView, TlsError>(e),
        },
{
    match key {
        None => Err(TlsError::KeyRead),
        Some(None) => Err(TlsError::NoKey),
        Some(Some(key)) => Ok(key),
    }
}

/// The certificates in a PEM file with the given contents.
pub fn load_certs(pem: &[u8]) -> (r: Result<Vec<Vec<u8>>, TlsError>)
    ensures
        match r {
            Ok(v) => usable_certs(pem_certificates(pem@)) == Ok::<Seq<Seq<u8>>, TlsError>(
                byte_views(v@),
            ),
            Err(e) => usable_certs(pem_certificates(pem@)) == Err::<Seq<Seq<u8>>, TlsError>(e),
        },
{
    check_certs(read_certs(pem))
}

/// The private key in a PEM file with the given contents.
pub fn load_private_key(pem: &[u8]) -> (r: Result<PrivateKey, TlsError>)
    ensures
        match r {
            Ok(v) => usable_key(pem_private_key(pem@)) == Ok::<PrivateKeyView, TlsError>(v@),
            Err(e) => usable_key(pem_private_key(pem@)) == Err::<PrivateKeyView, TlsError>(e),
        },
{
    check_private_key(read_private_key(pem))
}

// ---------------------------------------------------------------------------------------------
// Self-signed certificates
// ---------------------------------------------------------------------------------------------

/// IPv4 addresses come before IPv6 addresses, and smaller ones before larger ones.
pub open spec fn before(a: IpAddr, b: IpAddr) -> bool {
    match (a, b) {
        (IpAddr::V4(x), IpAddr::V4(y)) => x < y,
        (IpAddr::V4(_), IpAddr::V6(_)) => true,
        (IpAddr::V6(_), IpAddr::V4(_)) => false,
        (IpAddr::V6(x), IpAddr::V6(y)) => x < y,
    }
}

/// The addresses are in order, and none occurs twice.
pub open spec fn ascending(ips: Seq<IpAddr>) -> bool {
    forall|i: int, j: int| 0 <= i < j < ips.len() ==> before(#[trigger] ips[i], #[trigger] ips[j])
}

fn comes_before(a: IpAddr, b: IpAddr) -> (r: bool)
    ensures
        r == before(a, b),
{
    match (a, b) {
        (IpAddr::V4(x), IpAddr::V4(y)) => x < y,
        (IpAddr::V4(_), IpAddr::V6(_)) => true,
        (IpAddr::V6(_), IpAddr::V4(_)) => false,
        (IpAddr::V6(x), IpAddr::V6(y)) => x < y,
    }
}

/// Adds an address where it belongs.
fn insert_ip(ips: &mut Vec<IpAddr>, ip: IpAddr)
    requires
        ascending(old(ips)@),
    ensures
        ascending(final(ips)@),
        forall|x: IpAddr| #[trigger]
            final(ips)@.contains(x) <==> old(ips)@.contains(x) || x == ip,
{
    let mut i: usize = 0;
    while i < ips.len() && comes_before(ips[i], ip)
        invariant
            i <= ips@.len(),
            ips@ == old(ips)@,
            ascending(ips@),
            forall|j: int| 0 <= j < i ==> before(#[trigger] ips@[j], ip),
        decreases ips.len() - i,
    {
        i += 1;
    }
    if i < ips.len() && ips[i] == ip {
        assert(ips@[i as int] == ip);
        return ;
    }
    let ghost s = ips@;
    ips.insert(i, ip);
    let ghost t = ips@;
    proof {
        assert(t =~= s.insert(i as int, ip));
        if i < s.len() {
            assert(before(ip, s[i as int]));
        }
        assert forall|a: int, b: int| 0 <= a < b < t.len() implies before(
            #[trigger] t[a],
            #[trigger] t[b],
        ) by {
            if a < i && b > i {
                assert(t[a] == s[a] && t[b] == s[b - 1]);
            } else if a < i && b < i {
                assert(t[a] == s[a] && t[b] == s[b]);
            } else if a > i {
                assert(t[a] == s[a - 1] && t[b] == s[b - 1]);
            } else if a == i {
                assert(t[b] == s[b - 1]);
                if b - 1 > i {
                    assert(before(s[i as int], s[b - 1]));
                }
            }
        }
        assert forall|x: IpAddr| #[trigger] t.contains(x) <==> s.contains(x) || x == ip by {
            if t.contains(x) {
                let k = choose|k: int| 0 <= k < t.len() && t[k] == x;
                if k < i {
                    assert(s[k] == x);
                } else if k > i {
                    assert(s[k - 1] == x);
                }
            }
            if s.contains(x) {
                let k = choose|k: int| 0 <= k < s.len() && s[k] == x;
                if k < i {
                    assert(t[k] == x);
                } else {
                    assert(t[k + 1] == x);
                }
            }
            assert(t[i as int] == ip);
        }
    }
}

/// The addresses of the server: those of its interfaces and the loopback addresses, in order and
/// each once.
pub open spec fn are_server_ips(ips: Seq<IpAddr>, interfaces: Seq<IpAddr>) -> bool {
    &&& ascending(ips)
    &&& forall|x: IpAddr| #[trigger]
        ips.contains(x) <==> interfaces.contains(x) || x == IpAddr::V4(LOCALHOST_V4) || x
            == IpAddr::V6(LOCALHOST_V6)
}

/// The addresses of the server, given those of its interfaces.
pub fn server_ip_addresses(interfaces: &[IpAddr]) -> (r: Vec<IpAddr>)
    ensures
        are_server_ips(r@, interfaces@),
{
    let mut ips: Vec<IpAddr> = Vec::new();
    let mut i: usize = 0;
    while i < interfaces.len()
        invariant
            i <= interfaces@.len(),
            ascending(ips@),
            forall|x: IpAddr| #[trigger]
                ips@.contains(x) <==> interfaces@.take(i as int).contains(x),
        decreases interfaces.len() - i,
    {
        insert_ip(&mut ips, interfaces[i]);
        proof {
            let t = interfaces@.take(i + 1);
            assert forall|x: IpAddr| #[trigger] t.contains(x) <==> interfaces@.take(
                i as int,
            ).contains(x) || x == interfaces@[i as int] by {
                if t.contains(x) {
                    let k = choose|k: int| 0 <= k < t.len() && t[k] == x;
                    if k < i {
                        assert(interfaces@.take(i as int)[k] == x);
                    }
                }
                if interfaces@.take(i as int).contains(x) {
                    let k = choose|k: int| 0 <= k < i && interfaces@.take(i as int)[k] == x;
                    assert(t[k] == x);
                }
                assert(t[i as int] == interfaces@[i as int]);
            }
        }
        i += 1;
    }
    assert(interfaces@.take(interfaces@.len() as int) =~= interfaces@);
    insert_ip(&mut ips, IpAddr::V4(LOCALHOST_V4));
    insert_ip(&mut ips, IpAddr::V6(LOCALHOST_V6));
    ips
}

/// An ordered list without repetitions is fixed by what it holds.
pub proof fn law_the_server_addresses_are_fixed(
    a: Seq<IpAddr>,
    b: Seq<IpAddr>,
    interfaces: Seq<IpAddr>,
)
    requires
        are_server_ips(a, interfaces),
        are_server_ips(b, interfaces),
    ensures
        a == b,
{
    assert forall|x: IpAddr| #[trigger] a.contains(x) <==> b.contains(x) by {
        assert(a.contains(x) <==> interfaces.contains(x) || x == IpAddr::V4(LOCALHOST_V4) || x
            == IpAddr::V6(LOCALHOST_V6));
        assert(b.contains(x) <==> interfaces.contains(x) || x == IpAddr::V4(LOCALHOST_V4) || x
            == IpAddr::V6(LOCALHOST_V6));
    }
    lemma_ascending_unique(a, b);
}

/// Two ordered lists with the same members are the same.
proof fn lemma_ascending_unique(a: Seq<IpAddr>, b: Seq<IpAddr>)
    requires
        ascending(a),
        ascending(b),
        forall|x: IpAddr| #[trigger] a.contains(x) <==> b.contains(x),
    ensures
        a == b,
    decreases a.len(),
{
    if a.len() == 0 {
        if b.len() > 0 {
            assert(b.contains(b[0]));
            assert(a.contains(b[0]));
        }
        assert(a =~= b);
    } else {
        assert(a.contains(a[0]));
        assert(b.contains(a[0]));
        let k = choose|k: int| 0 <= k < b.len() && b[k] == a[0];
        assert(b.contains(b[0]));
        assert(a.contains(b[0]));
        let l = choose|l: int| 0 <= l < a.len() && a[l] == b[0];
        if k > 0 && l > 0 {
            assert(before(b[0], b[k]));
            assert(before(a[0], a[l]));
        }
        assert(a[0] == b[0]);
        let c = a.skip(1);
        let d = b.skip(1);
        assert forall|x: IpAddr| #[trigger] c.contains(x) <==> d.contains(x) by {
            if c.contains(x) {
                let i = choose|i: int| 0 <= i < c.len() && c[i] == x;
                assert(a[i + 1] == x);
                assert(before(a[0], a[i + 1]));
                assert(a.contains(x));
                assert(b.contains(x));
                let j = choose|j: int| 0 <= j < b.len() && b[j] == x;
                assert(d[j - 1] == x);
            }
            if d.contains(x) {
                let i = choose|i: int| 0 <= i < d.len() && d[i] == x;
                assert(b[i + 1] == x);
                assert(before(b[0], b[i + 1]));
                assert(b.contains(x));
                assert(a.contains(x));
                let j = choose|j: int| 0 <= j < a.len() && a[j] == x;
                assert(c[j - 1] == x);
            }
        }
        assert forall|i: int, j: int| 0 <= i < j < c.len() implies before(
            #[trigger] c[i],
            #[trigger] c[j],
        ) by {
            assert(before(a[i + 1], a[j + 1]));
        }
        assert forall|i: int, j: int| 0 <= i < j < d.len() implies before(
            #[trigger] d[i],
            #[trigger] d[j],
        ) by {
            assert(before(b[i + 1], b[j + 1]));
        }
        lemma_ascending_unique(c, d);
        assert(a =~= seq![a[0]] + c);
        assert(b =~= seq![b[0]] + d);
    }
}

/// What a self-signed certificate says: the names it is for, its own name, and from when until
/// when it is valid, in seconds since the Unix epoch.
#[derive(Debug)]
pub struct CertRequest {
    pub names: Vec<String>,
    pub common_name: String,
    pub not_before: u64,
    pub not_after: u64,
}

/// The certificate to make at `now`: for the addresses of the server, valid for ten years.
pub fn certificate_request(interfaces: &[IpAddr], now: u64) -> (r: CertRequest)
    requires
        now + SELF_SIGNED_SECS <= LAST_SECOND,
    ensures
        exists|ips: Seq<IpAddr>| #[trigger]
            are_server_ips(ips, interfaces@) && text::strings(r.names@) == written(ips),
        r.common_name@ == SELF_SIGNED_NAME@,
        r.not_before == now,
        r.not_after == now + SELF_SIGNED_SECS,
{
    let ips = server_ip_addresses(interfaces);
    let mut names: Vec<String> = Vec::new();
    let mut i: usize = 0;
    while i < ips.len()
        invariant
            i <= ips@.len(),
            names@.len() == i,
            forall|j: int| 0 <= j < i ==> (#[trigger] names@[j])@ == ips@[j].spec_text(),
        decreases ips.len() - i,
    {
        names.push(ips[i].to_text());
        i += 1;
    }
    proof {
        assert(text::strings(names@) =~= written(ips@));
        assert(are_server_ips(ips@, interfaces@));
    }
    CertRequest {
        names,
        common_name: SELF_SIGNED_NAME.to_owned(),
        not_before: now,
        not_after: now + SELF_SIGNED_SECS,
    }
}

/// The error of `rcgen`.
#[verifier::external_type_specification]
#[verifier::external_body]
pub struct ExRcgenError(rcgen::Error);

/// The names are ASCII.
pub open spec fn all_ascii(names: Seq<Seq<char>>) -> bool {
    forall|i: int| 0 <= i < names.len() ==> is_ascii_chars(#[trigger] names[i])
}

/// `part` stands in `bytes` at `i`.
pub open spec fn stands_at(bytes: Seq<u8>, part: Seq<u8>, i: int) -> bool {
    0 <= i && i + part.len() <= bytes.len() && bytes.subrange(i, i + part.len()) == part
}

/// `part` stands in `bytes`.
pub open spec fn holds(bytes: Seq<u8>, part: Seq<u8>) -> bool {
    exists|i: int| #[trigger] stands_at(bytes, part, i)
}

/// The bytes of a number without zero bytes before it, most significant first.
pub open spec fn shortest_bytes(n: nat) -> Seq<u8>
    decreases n,
{
    if n < 256 {
        seq![n as u8]
    } else {
        shortest_bytes(n / 256).push((n % 256) as u8)
    }
}

/// A length in DER: one byte for those below 128; else its bytes, and before them how many they
/// are.
pub open spec fn der_length(n: nat) -> Seq<u8> {
    if n < 128 {
        seq![n as u8]
    } else {
        seq![(128 + shortest_bytes(n).len()) as u8] + shortest_bytes(n)
    }
}

/// A value in DER: its tag, its length, and its contents.
pub open spec fn der(tag: u8, contents: Seq<u8>) -> Seq<u8> {
    seq![tag] + der_length(contents.len()) + contents
}

/// A distinguished name that is a common name alone, as DER.
pub open spec fn distinguished_name(common_name: Seq<char>) -> Seq<u8> {
    der(
        0x30,
        der(
            0x31,
            der(
                0x30,
                seq![0x06u8, 0x03u8, 0x55u8, 0x04u8, 0x03u8] + der(
                    0x0c,
                    encode_utf8(common_name),
                ),
            ),
        ),
    )
}

/// The bytes of an address, most significant first.
pub open spec fn octets(ip: IpAddr) -> Seq<u8> {
    match ip {
        IpAddr::V4(v) => bigendian::be_bytes(v as nat, 4),
        IpAddr::V6(v) => bigendian::be_bytes(v as nat, 16),
    }
}

/// The alternative names that are these addresses, one after another, as DER.
pub open spec fn alternative_names(ips: Seq<IpAddr>) -> Seq<u8>
    decreases ips.len(),
{
    if ips.len() == 0 {
        Seq::empty()
    } else {
        alternative_names(ips.drop_last()) + der(0x87, octets(ips.last()))
    }
}

/// The extension with the alternative names of a certificate, which are these addresses and no
/// others, as DER.
pub open spec fn names_extension(ips: Seq<IpAddr>) -> Seq<u8> {
    seq![0x06u8, 0x03u8, 0x55u8, 0x1du8, 0x11u8] + der(0x04, der(0x30, alternative_names(ips)))
}

/// The written forms of addresses.
pub open spec fn written(ips: Seq<IpAddr>) -> Seq<Seq<char>> {
    ips.map_values(|ip: IpAddr| ip.spec_text())
}

/// A time in a certificate, as DER.
pub uninterp spec fn certificate_time(secs: u64) -> Seq<u8>;

/// How many bytes the public key of an ECDSA key on the curve P-256 has.
pub const PUBLIC_KEY_BYTES: usize = 65;

/// The public key that a private key ends with, as DER.
pub open spec fn public_key(key: Seq<u8>) -> Seq<u8> {
    key.skip(key.len() - PUBLIC_KEY_BYTES)
}

/// `rcgen`'s `CertificateParams::self_signed` with the parameters of `request` and a new key of
/// `KeyPair::generate`: the certificate, and the key, as DER. The first error is that of
/// `CertificateParams::new`, which accepts names that are ASCII; the second is that of
/// `KeyPair::generate`; the third is that of `self_signed`.
///
/// The certificate holds its own name, in UTF-8; the two times that it is valid between, each of
/// them written by its second alone; where the names are written addresses, the whole list of these
/// as its alternative names; and the public key that the private key ends with. The key and the
/// signature are random, and nothing more is known of them.
#[verifier::external_body]
fn self_sign(request: &CertRequest) -> (r: Result<
    Result<Result<(Vec<u8>, Vec<u8>), rcgen::Error>, rcgen::Error>,
    rcgen::Error,
>)
    requires
        request.not_before <= LAST_SECOND,
        request.not_after <= LAST_SECOND,
    ensures
        all_ascii(text::strings(request.names@)) ==> r is Ok,
        r matches Ok(Ok(Ok((cert, key)))) ==> {
            &&& holds(cert@, distinguished_name(request.common_name@))
            &&& holds(
                cert@,
                der(
                    0x30,
                    certificate_time(request.not_before) + certificate_time(request.not_after),
                ),
            )
            &&& forall|ips: Seq<IpAddr>|
                ips.len() > 0 && text::strings(request.names@) == #[trigger] written(ips) ==> holds(
                    cert@,
                    names_extension(ips),
                )
            &&& key@.len() >= PUBLIC_KEY_BYTES
            &&& holds(cert@, public_key(key@))
        },
{
    let epoch = OffsetDateTime::UNIX_EPOCH;
    let mut params = CertificateParams::new(request.names.clone())?;
    params.not_before = epoch + Duration::seconds(request.not_before as i64);
    params.not_after = epoch + Duration::seconds(request.not_after as i64);
    params.distinguished_name = DistinguishedName::new();
    params.distinguished_name.push(DnType::CommonName, request.common_name.as_str());
    let key = match KeyPair::generate() {
        Ok(key) => key,
        Err(e) => return Ok(Err(e)),
    };
    match params.self_signed(&key) {
        Ok(cert) => Ok(Ok(Ok((cert.der().to_vec(), key.serialize_der())))),
        Err(e) => Ok(Ok(Err(e))),
    }
}

/// A certificate that was to be made, and its key.
pub type Made = Result<Result<Result<(Vec<u8>, Vec<u8>), rcgen::Error>, rcgen::Error>, rcgen::Error>;

/// `made` is what came of making a certificate with these parameters.
pub closed spec fn was_made(
    names: Seq<Seq<char>>,
    common_name: Seq<char>,
    not_before: u64,
    not_after: u64,
    made: Made,
) -> bool {
    exists|request: CertRequest|
        {
            &&& #[trigger] call_ensures(self_sign, (&request,), made)
            &&& text::strings(request.names@) == names
            &&& request.common_name@ == common_name
            &&& request.not_before == not_before
            &&& request.not_after == not_after
        }
}

/// The certificate that was made and its key; else what could not be made.
pub open spec fn made_outcome(made: Made) -> Result<(Vec<u8>, Vec<u8>), TlsError> {
    match made {
        Err(_) => Err(TlsError::Params),
        Ok(Err(_)) => Err(TlsError::KeyGeneration),
        Ok(Ok(Err(_))) => Err(TlsError::SelfSigned),
        Ok(Ok(Ok(pair))) => Ok(pair),
    }
}

/// The certificate that was made and its key; else what could not be made.
pub fn check_self_signed(
    made: Result<Result<Result<(Vec<u8>, Vec<u8>), rcgen::Error>, rcgen::Error>, rcgen::Error>,
) -> (r: Result<(Vec<u8>, Vec<u8>), TlsError>)
    ensures
        r == (match made {
            Err(_) => Err::<(Vec<u8>, Vec<u8>), TlsError>(TlsError::Params),
            Ok(Err(_)) => Err(TlsError::KeyGeneration),
            Ok(Ok(Err(_))) => Err(TlsError::SelfSigned),
            Ok(Ok(Ok(pair))) => Ok(pair),
        }),
{
    match made {
        Err(_) => Err(TlsError::Params),
        Ok(Err(_)) => Err(TlsError::KeyGeneration),
        Ok(Ok(Err(_))) => Err(TlsError::SelfSigned),
        Ok(Ok(Ok(pair))) => Ok(pair),
    }
}

/// Written addresses are ASCII.
proof fn lemma_address_ascii(ip: IpAddr)
    ensures
        is_ascii_chars(ip.spec_text()),
{
    match ip {
        IpAddr::V4(v) => ip_laws::law_ipv4_is_read_back(v as nat),
        IpAddr::V6(v) => ip_laws::law_ipv6_is_read_back(v as nat),
    }
    let s = ip.spec_text();
    assert forall|i: int| 0 <= i < s.len() implies '\0' <= #[trigger] s[i] <= '\u{7f}' by {
        assert(ip_laws::is_addr_char(s[i]));
    }
}

/// The certificate is for the addresses `ips` and no others, valid for ten years from `now`, and
/// for the public key of `key`.
pub open spec fn certifies(cert: Seq<u8>, key: Seq<u8>, ips: Seq<IpAddr>, now: u64) -> bool {
    &&& holds(cert, distinguished_name(SELF_SIGNED_NAME@))
    &&& holds(
        cert,
        der(0x30, certificate_time(now) + certificate_time((now + SELF_SIGNED_SECS) as u64)),
    )
    &&& holds(cert, names_extension(ips))
    &&& key.len() >= PUBLIC_KEY_BYTES
    &&& holds(cert, public_key(key))
}

/// A certificate for the addresses of the server that is signed by its own key, as DER, and that
/// key, as PKCS#8.
pub fn generate_self_signed_cert(interfaces: &[IpAddr], now: u64) -> (r: Result<
    (Vec<u8>, Vec<u8>),
    TlsError,
>)
    requires
        now + SELF_SIGNED_SECS <= LAST_SECOND,
    ensures
        match r {
            Ok((cert, key)) => exists|ips: Seq<IpAddr>| #[trigger]
                are_server_ips(ips, interfaces@) && certifies(cert@, key@, ips, now),
            Err(e) => e == TlsError::KeyGeneration || e == TlsError::SelfSigned,
        },
        exists|ips: Seq<IpAddr>, made: Made|
            {
                &&& are_server_ips(ips, interfaces@)
                &&& #[trigger] was_made(
                    written(ips),
                    SELF_SIGNED_NAME@,
                    now,
                    (now + SELF_SIGNED_SECS) as u64,
                    made,
                )
                &&& r == made_outcome(made)
            },
{
    let request = certificate_request(interfaces, now);
    let ghost ips = choose|ips: Seq<IpAddr>| #[trigger]
        are_server_ips(ips, interfaces@) && text::strings(request.names@) == written(ips);
    proof {
        let names = text::strings(request.names@);
        assert forall|i: int| 0 <= i < names.len() implies is_ascii_chars(#[trigger] names[i]) by {
            assert(names[i] == ips[i].spec_text());
            lemma_address_ascii(ips[i]);
        }
    }
    let made = self_sign(&request);
    let ghost m = made;
    assert(was_made(
        written(ips),
        SELF_SIGNED_NAME@,
        now,
        (now + SELF_SIGNED_SECS) as u64,
        m,
    ));
    let r = check_self_signed(made);
    proof {
        if r is Ok {
            assert(ips.contains(IpAddr::V4(LOCALHOST_V4)));
            assert(text::strings(request.names@) == written(ips));
            assert(are_server_ips(ips, interfaces@) && certifies(r->Ok_0.0@, r->Ok_0.1@, ips, now));
        }
    }
    r
}

} // verus!
