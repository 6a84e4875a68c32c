//! Certificates as they are shown.
use ring::digest;
use vstd::prelude::*;
use vstd::slice::*;
use vstd::string::*;
use x509_parser::prelude::{FromDer, GeneralName, X509Certificate};

use crate::api::auth::{hex_text, to_lower_hex};
use crate::clients;
use crate::clients::hex2;
use crate::ip;
use crate::ip::{ip_text, IpAddr, Ipv4, Ipv6};
use crate::text::{join, texts};

verus! {

/// A name that a certificate is for.
#[derive(Debug)]
pub enum CertName {
    Dns(String),
    /// An address, as its bytes.
    Ip(Vec<u8>),
    Email(String),
    Uri(String),
    Other(String),
}

/// A name that a certificate is for, as a plain value.
pub ghost enum CertNameView {
    Dns(Seq<char>),
    Ip(Seq<u8>),
    Email(Seq<char>),
    Uri(Seq<char>),
    Other(Seq<char>),
}

impl View for CertName {
    type V = CertNameView;

    open spec fn view(&self) -> CertNameView {
        match *self {
            CertName::Dns(s) => CertNameView::Dns(s@),
            CertName::Ip(b) => CertNameView::Ip(b@),
            CertName::Email(s) => CertNameView::Email(s@),
            CertName::Uri(s) => CertNameView::Uri(s@),
            CertName::Other(s) => CertNameView::Other(s@),
        }
    }
}

/// What a certificate says of itself.
#[derive(Debug)]
pub struct CertFields {
    pub subject: String,
    pub issuer: String,
    pub not_before: String,
    pub not_before_unix: i64,
    pub not_after: String,
    pub not_after_unix: i64,
    pub serial: String,
    pub sig_alg: String,
}

/// What a certificate says of itself, as a plain value.
pub ghost struct CertFieldsView {
    pub subject: Seq<char>,
    pub issuer: Seq<char>,
    pub not_before: Seq<char>,
    pub not_before_unix: i64,
    pub not_after: Seq<char>,
    pub not_after_unix: i64,
    pub serial: Seq<char>,
    pub sig_alg: Seq<char>,
}

impl View for CertFields {
    type V = CertFieldsView;

    open spec fn view(&self) -> CertFieldsView {
        CertFieldsView {
            subject: self.subject@,
            issuer: self.issuer@,
            not_before: self.not_before@,
            not_before_unix: self.not_before_unix,
            not_after: self.not_after@,
            not_after_unix: self.not_after_unix,
            serial: self.serial@,
            sig_alg: self.sig_alg@,
        }
    }
}

/// What an encoded certificate says of itself, or why it is none.
pub uninterp spec fn x509_fields(der: Seq<u8>) -> core::result::Result<CertFieldsView, Seq<char>>;

/// The alternative names of an encoded certificate, where it has any.
pub uninterp spec fn x509_names(der: Seq<u8>) -> Option<Seq<CertNameView>>;

/// The SHA-256 digest of a byte sequence.
pub uninterp spec fn sha256(bytes: Seq<u8>) -> Seq<u8>;

/// The fields or the reason why there are none, as a plain value.
pub open spec fn fields_view(r: core::result::Result<CertFields, String>) -> core::result::Result<
    CertFieldsView,
    Seq<char>,
> {
    match r {
        Ok(f) => Ok(f@),
        Err(e) => Err(e@),
    }
}

/// Names as plain values.
pub open spec fn name_views(names: Seq<CertName>) -> Seq<CertNameView> {
    names.map_values(|n: CertName| n@)
}

/// The names, where there are any, as a plain value.
pub open spec fn names_view(r: Option<Vec<CertName>>) -> Option<Seq<CertNameView>> {
    match r {
        Some(v) => Some(name_views(v@)),
        None => None,
    }
}

/// `X509Certificate::from_der` of `x509_parser` reads a certificate, and the `Display`
/// of its fields shows them. In what words is left open.
#[verifier::external_body]
fn parse_fields(der: &[u8]) -> (r: core::result::Result<CertFields, String>)
    ensures
        fields_view(r) == x509_fields(der@),
{
    let (_, x) = X509Certificate::from_der(der).map_err(|e| e.to_string())?;
    Ok(CertFields {
        subject: x.subject().to_string(),
        issuer: x.issuer().to_string(),
        not_before: x.validity().not_before.to_string(),
        not_before_unix: x.validity().not_before.timestamp(),
        not_after: x.validity().not_after.to_string(),
        not_after_unix: x.validity().not_after.timestamp(),
        serial: x.raw_serial_as_string(),
        sig_alg: x.signature_algorithm.algorithm.to_string(),
    })
}

/// `X509Certificate::subject_alternative_name` of `x509_parser` gives the names that
/// a certificate is for. There are none where the bytes are no certificate, or
/// where it has no such extension, or an invalid one.
#[verifier::external_body]
fn parse_names(der: &[u8]) -> (r: Option<Vec<CertName>>)
    ensures
        names_view(r) == x509_names(der@),
{
    let (_, x) = X509Certificate::from_der(der).ok()?;
    let san = x.subject_alternative_name().ok()??;
    Some(san.value.general_names.iter().map(|n| match n {
        GeneralName::DNSName(s) => CertName::Dns(s.to_string()),
        GeneralName::IPAddress(b) => CertName::Ip(b.to_vec()),
        GeneralName::RFC822Name(s) => CertName::Email(s.to_string()),
        GeneralName::URI(s) => CertName::Uri(s.to_string()),
        other => CertName::Other(format!("{other:?}")),
    }).collect())
}

/// `digest::digest` of `ring` computes the SHA-256 digest, which has 32 bytes.
#[verifier::external_body]
fn digest_sha256(bytes: &[u8]) -> (r: Vec<u8>)
    ensures
        r@ == sha256(bytes@),
        r@.len() == 32,
{
    digest::digest(&digest::SHA256, bytes).as_ref().to_vec()
}

/// The IPv4 address of four bytes.
pub open spec fn v4_of_bytes(b: Seq<u8>) -> Ipv4 {
    Ipv4 { a: b[0], b: b[1], c: b[2], d: b[3] }
}

/// A segment of an IPv6 address, of two bytes.
pub open spec fn segment(b: Seq<u8>, i: int) -> u16 {
    (b[2 * i] * 256 + b[2 * i + 1]) as u16
}

/// The IPv6 address of sixteen bytes.
pub open spec fn v6_of_bytes(b: Seq<u8>) -> Ipv6 {
    Ipv6 {
        s0: segment(b, 0),
        s1: segment(b, 1),
        s2: segment(b, 2),
        s3: segment(b, 3),
        s4: segment(b, 4),
        s5: segment(b, 5),
        s6: segment(b, 6),
        s7: segment(b, 7),
    }
}

/// An address in a certificate as text: four or sixteen bytes as the address, any
/// other bytes in hexadecimal.
pub open spec fn cert_ip_text(b: Seq<u8>) -> Seq<char> {
    if b.len() == 4 {
        ip_text(IpAddr::V4(v4_of_bytes(b)))
    } else if b.len() == 16 {
        ip_text(IpAddr::V6(v6_of_bytes(b)))
    } else {
        hex_text(b)
    }
}

/// An address in a certificate as text.
pub fn fmt_cert_ip(bytes: &[u8]) -> (r: String)
    ensures
        r@ == cert_ip_text(bytes@),
{
    if bytes.len() == 4 {
        return ip::format_ip(&IpAddr::V4(Ipv4 { a: bytes[0], b: bytes[1], c: bytes[2], d: bytes[3] }));
    }
    if bytes.len() == 16 {
        return ip::format_ip(
            &IpAddr::V6(
                Ipv6 {
                    s0: (bytes[0] as u16) * 256 + bytes[1] as u16,
                    s1: (bytes[2] as u16) * 256 + bytes[3] as u16,
                    s2: (bytes[4] as u16) * 256 + bytes[5] as u16,
                    s3: (bytes[6] as u16) * 256 + bytes[7] as u16,
                    s4: (bytes[8] as u16) * 256 + bytes[9] as u16,
                    s5: (bytes[10] as u16) * 256 + bytes[11] as u16,
                    s6: (bytes[12] as u16) * 256 + bytes[13] as u16,
                    s7: (bytes[14] as u16) * 256 + bytes[15] as u16,
                },
            ),
        );
    }
    to_lower_hex(bytes)
}

/// A name as it is shown.
pub open spec fn name_text(n: CertNameView) -> Seq<char> {
    match n {
        CertNameView::Dns(s) => s,
        CertNameView::Ip(b) => "IP:"@ + cert_ip_text(b),
        CertNameView::Email(s) => "email:"@ + s,
        CertNameView::Uri(s) => "uri:"@ + s,
        CertNameView::Other(s) => s,
    }
}

fn labelled(label: &str, s: &str) -> (r: String)
    ensures
        r@ == label@ + s@,
{
    let mut t = label.to_string();
    t.append(s);
    t
}

fn show_name(n: &CertName) -> (r: String)
    ensures
        r@ == name_text(n@),
{
    match n {
        CertName::Dns(s) => s.clone(),
        CertName::Ip(b) => {
            let t = fmt_cert_ip(b.as_slice());
            labelled("IP:", t.as_str())
        },
        CertName::Email(s) => labelled("email:", s.as_str()),
        CertName::Uri(s) => labelled("uri:", s.as_str()),
        CertName::Other(s) => s.clone(),
    }
}

/// The names as they are shown; none where there are none.
pub open spec fn shown_names(names: Option<Seq<CertNameView>>) -> Seq<Seq<char>> {
    match names {
        Some(v) => v.map_values(|n: CertNameView| name_text(n)),
        None => seq![],
    }
}

/// The names as they are shown.
pub fn show_names(names: &Option<Vec<CertName>>) -> (r: Vec<String>)
    ensures
        texts(r@) == shown_names(names_view(*names)),
{
    let mut out: Vec<String> = Vec::new();
    if let Some(v) = names {
        let ghost all = shown_names(names_view(*names));
        let mut i: usize = 0;
        assert(texts(out@) =~= all.take(0));
        while i < v.len()
            invariant
                i <= v@.len(),
                all == name_views(v@).map_values(|n: CertNameView| name_text(n)),
                texts(out@) == all.take(i as int),
            decreases v@.len() - i,
        {
            let s = show_name(&v[i]);
            proof {
                crate::text::lemma_texts_push(out@, s);
                assert(all[i as int] == s@);
                assert(all.take(i + 1) =~= all.take(i as int).push(s@));
            }
            out.push(s);
            i = i + 1;
        }
        assert(all.take(all.len() as int) =~= all);
    } else {
        assert(texts(out@) =~= seq![]);
    }
    out
}

/// Bytes in hexadecimal with colons between them.
pub open spec fn fingerprint(bytes: Seq<u8>) -> Seq<char> {
    join(bytes.map_values(|b: u8| hex2(b)), ":"@)
}

/// Bytes in hexadecimal with colons between them.
pub fn show_fingerprint(bytes: &[u8]) -> (r: String)
    ensures
        r@ == fingerprint(bytes@),
{
    let ghost parts = bytes@.map_values(|b: u8| hex2(b));
    let mut out = String::new();
    let mut i: usize = 0;
    assert(out@ =~= join(parts.take(0), ":"@));
    while i < bytes.len()
        invariant
            i <= bytes@.len(),
            parts == bytes@.map_values(|b: u8| hex2(b)),
            out@ == join(parts.take(i as int), ":"@),
        decreases bytes@.len() - i,
    {
        let ghost done = out@;
        proof {
            assert(parts.take(i + 1).drop_last() =~= parts.take(i as int));
            assert(parts.take(i + 1).last() == hex2(bytes@[i as int]));
        }
        if i > 0 {
            out.append(":");
        }
        clients::push_hex2(&mut out, bytes[i]);
        proof {
            if i == 0 {
                assert(out@ =~= hex2(bytes@[0]));
                assert(parts.take(1)[0] == hex2(bytes@[0]));
            } else {
                assert(out@ =~= done + ":"@ + hex2(bytes@[i as int]));
            }
        }
        i = i + 1;
    }
    assert(parts.take(parts.len() as int) =~= parts);
    out
}

/// A certificate as it is shown.
#[derive(Debug)]
pub struct CertInfo {
    /// The server's own certificate.
    pub is_leaf: bool,
    /// The SHA-256 digest.
    pub sha256: String,
    /// What it says, or why that cannot be read.
    pub fields: core::result::Result<CertFields, String>,
    /// The names that it is for.
    pub sans: Vec<String>,
}

/// Shows a certificate: with its digest, even where it cannot be read.
pub fn show_cert(der: &[u8], is_leaf: bool) -> (r: CertInfo)
    ensures
        r.is_leaf == is_leaf,
        r.sha256@ == fingerprint(sha256(der@)),
        fields_view(r.fields) == x509_fields(der@),
        texts(r.sans@) == shown_names(x509_names(der@)),
{
    let hash = digest_sha256(der);
    let sha256 = show_fingerprint(hash.as_slice());
    let fields = parse_fields(der);
    let names = parse_names(der);
    let sans = show_names(&names);
    CertInfo { is_leaf, sha256, fields, sans }
}

}
