//! The fake RDP server's own rules: its TLS identity, how a leg negotiates the security
//! protocol, the RDSTLS exchange (the answer it sends and how it reads the client's
//! authentication request), the routing cookie it records and the Server Redirection PDU it
//! injects.
use std::time::Duration;
use vstd::prelude::*;

use crate::fake_channels::{Channels, ServerClipFormat};

use crate::time::{duration_nanos, nanos_of};
use crate::text::{chars_of, decimal, decimal_string, decode_utf16_lossy, string_without_trailing_nuls, trim_nuls, utf16_lossy};

verus! {

/// The RDSTLS capabilities PDU the server sends (versions v1|v2).
pub const RDSTLS_CAPABILITIES: [u8; 8] = [0x01, 0x00, 0x01, 0x00, 0x01, 0x00, 0x03, 0x00];

/// A self-signed TLS identity for one fake server leg.
#[derive(Clone)]
pub struct TestCert {
    der: Vec<u8>,
    key_pkcs8: Vec<u8>,
    public_key: Vec<u8>,
}

/// Whether `part` occurs in `s` as a run of consecutive bytes.
pub open spec fn occurs_in(part: Seq<u8>, s: Seq<u8>) -> bool {
    exists|i: int| 0 <= i && i + part.len() <= s.len() && #[trigger] s.subrange(i, i + part.len()) == part
}

/// Whether `c` is an ASCII letter.
pub open spec fn ascii_letter(c: char) -> bool {
    ('a' <= c && c <= 'z') || ('A' <= c && c <= 'Z')
}

/// A host name that no IP parser can take for an address: only ASCII letters, digits, `.` and
/// `-`, with at least one letter.
pub open spec fn dns_like(name: Seq<char>) -> bool {
    &&& forall|i: int|
        0 <= i < name.len() ==> {
            let c = #[trigger] name[i];
            ascii_letter(c) || ('0' <= c && c <= '9') || c == '.' || c == '-'
        }
    &&& exists|i: int| 0 <= i < name.len() && ascii_letter(#[trigger] name[i])
}

/// The dotted-decimal text of the IPv4 address `a.b.c.d`.
pub open spec fn ipv4_text(a: u8, b: u8, c: u8, d: u8) -> Seq<char> {
    decimal(a as nat) + seq!['.'] + decimal(b as nat) + seq!['.'] + decimal(c as nat) + seq!['.'] + decimal(
        d as nat,
    )
}

/// Whether certificate bytes `der` name `name` among its subject alternative names as far as
/// it can be read off the bytes: a host name by its ASCII bytes, an IPv4 literal by its four
/// octets.
pub open spec fn names_subject(der: Seq<u8>, name: Seq<char>) -> bool {
    &&& dns_like(name) ==> occurs_in(ascii_bytes(name), der)
    &&& forall|a: u8, b: u8, c: u8, d: u8|
        #[trigger] ipv4_text(a, b, c, d) == name ==> occurs_in(seq![a, b, c, d], der)
}

/// `rcgen::generate_simple_self_signed` for one subject name: the certificate DER, the
/// PKCS#8 key pair and the raw public key of a freshly generated key pair, or `None` when
/// rcgen refuses the name. The key is random: of the bytes it is only promised that the key is
/// an ECDSA P-256 point in uncompressed form (65 bytes, the first 4), as rcgen's default key
/// and ring's encoding give it, and that both the self-signed certificate and the PKCS#8
/// document (which ring writes with the public key at its end) carry that public key.
/// rcgen puts the name into the certificate's subject alternative names: a name that does not
/// parse as an IP address as a DNS name in its ASCII bytes, an IPv4 literal as its four octets;
/// `names_subject` states the two forms that can be read off the text alone. When rcgen refuses
/// a name is left unsaid.
#[verifier::external_body]
fn self_signed(name: &str) -> (r: Option<(Vec<u8>, Vec<u8>, Vec<u8>)>)
    ensures
        r matches Some((der, key, pk)) ==> pk@.len() == 65 && pk@[0] == 4 && occurs_in(pk@, der@)
            && occurs_in(pk@, key@) && names_subject(der@, name@),
{
    match rcgen::generate_simple_self_signed(vec![name.to_owned()]) {
        Ok(c) => Some((c.cert.der().to_vec(), c.signing_key.serialize_der(), c.signing_key.public_key_raw().to_vec())),
        Err(_) => None,
    }
}

impl TestCert {
    /// The certificate DER (view).
    pub closed spec fn der_view(&self) -> Seq<u8> {
        self.der@
    }

    /// The PKCS#8 key (view).
    pub closed spec fn key_view(&self) -> Seq<u8> {
        self.key_pkcs8@
    }

    /// The raw public key (view).
    pub closed spec fn public_key_view(&self) -> Seq<u8> {
        self.public_key@
    }

    /// Generates a fresh self-signed certificate for `name` (a DNS name or IP literal);
    /// `None` when the name is refused. Its public key is a P-256 point in uncompressed form
    /// (65 bytes, the first 4), and both the certificate and the PKCS#8 key pair carry it. The
    /// certificate names `name`: a host name by its ASCII bytes, an IPv4 literal by its octets.
    pub fn generate(name: &str) -> (r: Option<Self>)
        ensures
            r matches Some(c) ==> c.public_key_view().len() == 65 && c.public_key_view()[0] == 4
                && occurs_in(c.public_key_view(), c.der_view())
                && occurs_in(c.public_key_view(), c.key_view())
                && names_subject(c.der_view(), name@),
    {
        match self_signed(name) {
            Some((der, key_pkcs8, public_key)) => Some(TestCert { der, key_pkcs8, public_key }),
            None => None,
        }
    }

    /// An identity from its parts.
    pub fn from_parts(der: Vec<u8>, key_pkcs8: Vec<u8>, public_key: Vec<u8>) -> (r: Self)
        ensures
            r.der_view() == der@,
            r.key_view() == key_pkcs8@,
            r.public_key_view() == public_key@,
    {
        TestCert { der, key_pkcs8, public_key }
    }

    /// The certificate DER (what the client sees as the TLS leaf).
    pub fn der(&self) -> (r: &[u8])
        ensures
            r@ == self.der_view(),
    {
        self.der.as_slice()
    }

    /// The PKCS#8 key pair (the server side of TLS).
    pub fn key_pkcs8(&self) -> (r: &[u8])
        ensures
            r@ == self.key_view(),
    {
        self.key_pkcs8.as_slice()
    }

    /// The raw `subjectPublicKey` bits (what CredSSP binds to).
    pub fn public_key(&self) -> (r: &[u8])
        ensures
            r@ == self.public_key_view(),
    {
        self.public_key.as_slice()
    }
}

/// How a leg authenticates the client.
#[derive(Clone)]
pub enum LegAuth {
    /// `PROTOCOL_HYBRID`: CredSSP/NTLM against these credentials.
    Nla {
        /// Expected user name.
        username: String,
        /// Expected password.
        password: String,
    },
    /// `PROTOCOL_RDSTLS`: record the AuthRequest and answer with `result` (0 = success).
    Rdstls {
        /// RDSTLS AuthResponse result code.
        result: u32,
    },
}

/// A scripted server action after the client is activated.
#[derive(Clone)]
pub enum ServerAction {
    /// Pause (real time).
    Wait(Duration),
    /// Send an Enhanced Security Server Redirection PDU on the I/O channel.
    Redirect(RedirectionPdu),
    /// Close the TCP connection.
    Close,
    /// Remote copy: announce these formats on CLIPRDR and serve their data on request.
    ClipboardCopy(Vec<ServerClipFormat>),
    /// Ask the client for its clipboard data in this format id (a remote paste).
    ClipboardPaste(u32),
    /// While `true`, the client's Format Data Requests are recorded but answered only when
    /// this is set back to `false` (newest-wins race tests).
    HoldClipboardResponses(bool),
    /// Send `ResetGraphics` with a new surface of this size on the graphics channel.
    GfxReset(u32, u32),
    /// Send these bytes verbatim on the graphics channel: a damaged `RDP_SEGMENTED_DATA`
    /// frame, which the client must reject as a protocol error.
    GfxRaw(Vec<u8>),
}

/// What one TCP connection to the fake server does.
pub struct LegScript {
    /// TLS identity presented on this leg.
    pub cert: TestCert,
    /// Authentication method.
    pub auth: LegAuth,
    /// Desktop size announced in the Demand Active.
    pub desktop: (u16, u16),
    /// Actions after activation; afterwards the leg keeps reading until the client leaves.
    pub actions: Vec<ServerAction>,
    /// Accept the TCP connection but never answer (connect timeout tests).
    pub stall: bool,
    /// Virtual channels offered after activation (none by default).
    pub channels: Channels,
}

impl LegScript {
    /// An NLA leg (1280×800) with `cert` and the given credentials, no actions and no
    /// channels.
    pub fn nla(cert: TestCert, username: &str, password: &str) -> (r: Self)
        ensures
            r.cert == cert,
            r.auth matches LegAuth::Nla { username: u, password: p } && u@ == username@ && p@
                == password@,
            r.desktop == (1280u16, 800u16),
            r.actions@.len() == 0,
            !r.stall,
            r.channels == (Channels { display_control: false, gfx: false, clipboard: false }),
    {
        LegScript {
            cert,
            auth: LegAuth::Nla { username: String::from_str(username), password: String::from_str(password) },
            desktop: (1280, 800),
            actions: Vec::new(),
            stall: false,
            channels: Channels { display_control: false, gfx: false, clipboard: false },
        }
    }

    /// An RDSTLS leg (1280×800) answering with `result`, no actions and no channels.
    pub fn rdstls(cert: TestCert, result: u32) -> (r: Self)
        ensures
            r.cert == cert,
            r.auth == (LegAuth::Rdstls { result }),
            r.desktop == (1280u16, 800u16),
            r.actions@.len() == 0,
            !r.stall,
            r.channels == (Channels { display_control: false, gfx: false, clipboard: false }),
    {
        LegScript {
            cert,
            auth: LegAuth::Rdstls { result },
            desktop: (1280, 800),
            actions: Vec::new(),
            stall: false,
            channels: Channels { display_control: false, gfx: false, clipboard: false },
        }
    }

    /// A leg that accepts TCP and then stays silent (an RDSTLS leg that stalls).
    pub fn stall(cert: TestCert) -> (r: Self)
        ensures
            r.cert == cert,
            r.auth == (LegAuth::Rdstls { result: 0 }),
            r.desktop == (1280u16, 800u16),
            r.actions@.len() == 0,
            r.stall,
            r.channels == (Channels { display_control: false, gfx: false, clipboard: false }),
    {
        LegScript { stall: true, ..LegScript::rdstls(cert, 0) }
    }

    /// Offers `channels` after activation.
    pub fn with_channels(self, channels: Channels) -> (r: Self)
        ensures
            r == (LegScript { channels, ..self }),
    {
        LegScript { channels, ..self }
    }

    /// Appends a post-activation action.
    pub fn then(self, action: ServerAction) -> (r: Self)
        ensures
            r.cert == self.cert,
            r.auth == self.auth,
            r.desktop == self.desktop,
            r.actions@ == self.actions@.push(action),
            r.stall == self.stall,
            r.channels == self.channels,
    {
        let mut s = self;
        s.actions.push(action);
        s
    }
}

/// The RDSTLS AuthRequest a client sent (one-time credentials; test data only).
#[derive(Debug, Clone, PartialEq, Eq)]
pub struct RdstlsRequest {
    /// `RedirectionGuid`, verbatim.
    pub redirection_guid: Vec<u8>,
    /// User name (UTF-16LE on the wire, NUL stripped).
    pub username: String,
    /// Domain.
    pub domain: String,
    /// Password blob, verbatim.
    pub password: Vec<u8>,
}

// ---------------------------------------------------------------------------------------------
// Security protocol negotiation.
// ---------------------------------------------------------------------------------------------

/// `PROTOCOL_SSL`: TLS without NLA.
pub const PROTOCOL_SSL: u32 = 0x1;
/// `PROTOCOL_HYBRID`: TLS with CredSSP.
pub const PROTOCOL_HYBRID: u32 = 0x2;
/// `PROTOCOL_RDSTLS`: TLS with RDSTLS authentication (Server Redirection legs).
pub const PROTOCOL_RDSTLS: u32 = 0x4;

/// The protocol a leg selects: `PROTOCOL_HYBRID` for NLA, `PROTOCOL_RDSTLS` for RDSTLS.
pub open spec fn leg_protocol(auth: LegAuth) -> u32 {
    match auth {
        LegAuth::Nla { .. } => PROTOCOL_HYBRID,
        LegAuth::Rdstls { .. } => PROTOCOL_RDSTLS,
    }
}

/// What a leg answers to the client's X.224 Connection Request.
#[derive(Debug, Clone, Copy, PartialEq, Eq, Structural)]
pub enum Negotiation {
    /// Confirm the connection with this protocol.
    Confirm(u32),
    /// Refuse with `HYBRID_REQUIRED_BY_SERVER`: the client did not request `selected`.
    Refuse {
        /// The protocol the leg needs.
        selected: u32,
        /// What the client requested.
        requested: u32,
    },
}

/// The leg's answer to a Connection Request for protocols `requested`: confirm its protocol
/// when the client requested it, else refuse.
pub open spec fn negotiation_of(auth: LegAuth, requested: u32) -> Negotiation {
    let selected = leg_protocol(auth);
    if requested & selected == selected {
        Negotiation::Confirm(selected)
    } else {
        Negotiation::Refuse { selected, requested }
    }
}

/// The leg's answer to a Connection Request for protocols `requested`.
pub fn negotiate(auth: &LegAuth, requested: u32) -> (r: Negotiation)
    ensures
        r == negotiation_of(*auth, requested),
{
    let selected = match auth {
        LegAuth::Nla { .. } => PROTOCOL_HYBRID,
        LegAuth::Rdstls { .. } => PROTOCOL_RDSTLS,
    };
    if requested & selected == selected {
        Negotiation::Confirm(selected)
    } else {
        Negotiation::Refuse { selected, requested }
    }
}

/// The protocol the server-side acceptor is primed with: `PROTOCOL_HYBRID` for NLA, and
/// `PROTOCOL_SSL` for RDSTLS, which the acceptor cannot select itself.
pub fn acceptor_protocol(auth: &LegAuth) -> (r: u32)
    ensures
        r == match *auth {
            LegAuth::Nla { .. } => PROTOCOL_HYBRID,
            LegAuth::Rdstls { .. } => PROTOCOL_SSL,
        },
{
    match auth {
        LegAuth::Nla { .. } => PROTOCOL_HYBRID,
        LegAuth::Rdstls { .. } => PROTOCOL_SSL,
    }
}

/// What the client put in its Connection Request before the protocols.
pub enum NegoToken {
    /// A routing token (the load-balancing cookie of a redirected leg).
    RoutingToken(String),
    /// An `mstshash` cookie.
    Cookie(String),
}

/// The text the log records for a routing token or cookie.
pub open spec fn routing_record_of(token: NegoToken) -> Seq<char> {
    match token {
        NegoToken::RoutingToken(t) => "Cookie: msts="@ + t@,
        NegoToken::Cookie(c) => "Cookie: mstshash="@ + c@,
    }
}

/// The text the log records for a routing token or cookie.
pub fn routing_record(token: &NegoToken) -> (r: String)
    ensures
        r@ == routing_record_of(*token),
{
    match token {
        NegoToken::RoutingToken(t) => String::from_str("Cookie: msts=").concat(t.as_str()),
        NegoToken::Cookie(c) => String::from_str("Cookie: mstshash=").concat(c.as_str()),
    }
}

// ---------------------------------------------------------------------------------------------
// RDSTLS.
// ---------------------------------------------------------------------------------------------

/// The little-endian bytes of `v`.
pub open spec fn le32_bytes(v: u32) -> Seq<u8> {
    seq![(v & 0xFF) as u8, ((v >> 8u32) & 0xFF) as u8, ((v >> 16u32) & 0xFF) as u8, ((v >> 24u32) & 0xFF) as u8]
}

/// The RDSTLS Authentication Response with `result` (version 1, `RDSTLS_TYPE_AUTHRSP`,
/// `RDSTLS_DATA_RESULT_CODE`, then the result code).
pub open spec fn rdstls_response_of(result: u32) -> Seq<u8> {
    seq![0x01u8, 0x00u8, 0x04u8, 0x00u8, 0x01u8, 0x00u8] + le32_bytes(result)
}

/// The RDSTLS Authentication Response a leg sends; the leg goes on only when `result` is 0.
pub fn rdstls_auth_response(result: u32) -> (r: Vec<u8>)
    ensures
        r@ == rdstls_response_of(result),
{
    let mut v: Vec<u8> = Vec::new();
    v.push(0x01);
    v.push(0x00);
    v.push(0x04);
    v.push(0x00);
    v.push(0x01);
    v.push(0x00);
    v.push((result & 0xFF) as u8);
    v.push(((result >> 8u32) & 0xFF) as u8);
    v.push(((result >> 16u32) & 0xFF) as u8);
    v.push(((result >> 24u32) & 0xFF) as u8);
    assert(v@ =~= rdstls_response_of(result));
    v
}

/// The little-endian `u16` at `off`.
pub open spec fn le16_at(s: Seq<u8>, off: int) -> nat {
    s[off] as nat + 256 * s[off + 1] as nat
}

/// A field of `s` at `off`: a little-endian `u16` length and that many bytes. `Ok`: its bytes
/// and the offset after it; `Err(n)`: `n` more bytes are needed to read the length or the
/// bytes.
pub open spec fn field_at(s: Seq<u8>, off: int) -> Result<(Seq<u8>, int), nat> {
    if s.len() < off + 2 {
        Err((off + 2 - s.len()) as nat)
    } else {
        let n = le16_at(s, off);
        if s.len() < off + 2 + n {
            Err((off + 2 + n - s.len()) as nat)
        } else {
            Ok((s.subrange(off + 2, off + 2 + n), off + 2 + n))
        }
    }
}

/// The UTF-16LE code units of `b` (an odd last byte is ignored).
pub open spec fn utf16le_units(b: Seq<u8>) -> Seq<u16> {
    Seq::new(b.len() / 2, |i: int| (b[2 * i] as nat + 256 * b[2 * i + 1] as nat) as u16)
}

/// The text of a UTF-16LE field: unpaired surrogates read as U+FFFD, trailing NULs dropped.
pub open spec fn wire_text(b: Seq<u8>) -> Seq<char> {
    trim_nuls(utf16_lossy(utf16le_units(b)))
}

/// An RDSTLS request with its texts as characters: redirection GUID, user name, domain and
/// password.
pub type RdstlsRequestView = (Seq<u8>, Seq<char>, Seq<char>, Seq<u8>);

impl View for RdstlsRequest {
    type V = RdstlsRequestView;

    open spec fn view(&self) -> RdstlsRequestView {
        (self.redirection_guid@, self.username@, self.domain@, self.password@)
    }
}

/// What reading an RDSTLS Authentication Request from the bytes received so far gives.
#[derive(Debug, Clone, PartialEq, Eq)]
pub enum RdstlsRead {
    /// This many more bytes are needed before anything more can be read.
    Need(usize),
    /// The header is not version 1, `RDSTLS_TYPE_AUTHREQ`, `RDSTLS_DATA_PASSWORD_CREDS`.
    BadHeader {
        /// `version`.
        version: u16,
        /// `pduType`.
        pdu_type: u16,
        /// `dataType`.
        data_type: u16,
    },
    /// The request, and how many bytes it took.
    Done(RdstlsRequest, usize),
}

/// [`RdstlsRead`] with the request by its view.
pub enum RdstlsReadView {
    /// More bytes needed.
    Need(nat),
    /// Not a password-credentials authentication request.
    BadHeader {
        /// `version`.
        version: nat,
        /// `pduType`.
        pdu_type: nat,
        /// `dataType`.
        data_type: nat,
    },
    /// The request and its length.
    Done(RdstlsRequestView, nat),
}

impl View for RdstlsRead {
    type V = RdstlsReadView;

    open spec fn view(&self) -> RdstlsReadView {
        match self {
            RdstlsRead::Need(n) => RdstlsReadView::Need(*n as nat),
            RdstlsRead::BadHeader { version, pdu_type, data_type } => RdstlsReadView::BadHeader {
                version: *version as nat,
                pdu_type: *pdu_type as nat,
                data_type: *data_type as nat,
            },
            RdstlsRead::Done(req, k) => RdstlsReadView::Done(req@, *k as nat),
        }
    }
}

/// What the bytes `s` received so far give: the header (version, `pduType`, `dataType`), then
/// the redirection GUID, the user name, the domain and the password, each a length-prefixed
/// field; reading stops at the first piece that is not all there.
pub open spec fn rdstls_read(s: Seq<u8>) -> RdstlsReadView {
    if s.len() < 6 {
        RdstlsReadView::Need((6 - s.len()) as nat)
    } else if !(le16_at(s, 0) == 1 && le16_at(s, 2) == 2 && le16_at(s, 4) == 1) {
        RdstlsReadView::BadHeader { version: le16_at(s, 0), pdu_type: le16_at(s, 2), data_type: le16_at(s, 4) }
    } else {
        match field_at(s, 6) {
            Err(n) => RdstlsReadView::Need(n),
            Ok((guid, p1)) => match field_at(s, p1) {
                Err(n) => RdstlsReadView::Need(n),
                Ok((user, p2)) => match field_at(s, p2) {
                    Err(n) => RdstlsReadView::Need(n),
                    Ok((domain, p3)) => match field_at(s, p3) {
                        Err(n) => RdstlsReadView::Need(n),
                        Ok((password, p4)) => RdstlsReadView::Done(
                            (guid, wire_text(user), wire_text(domain), password),
                            p4 as nat,
                        ),
                    },
                },
            },
        }
    }
}

fn read_field(s: &[u8], off: usize) -> (r: Result<(usize, usize), usize>)
    requires
        off <= s@.len(),
    ensures
        match r {
            Ok((a, b)) => field_at(s@, off as int) == Ok::<(Seq<u8>, int), nat>(
                (s@.subrange(a as int, b as int), b as int),
            ) && a == off + 2 && a <= b <= s@.len(),
            Err(n) => field_at(s@, off as int) == Err::<(Seq<u8>, int), nat>(n as nat),
        },
{
    let len = s.len();
    if len - off < 2 {
        return Err(2 - (len - off));
    }
    let n = s[off] as usize + 256 * s[off + 1] as usize;
    if len - (off + 2) < n {
        Err(n - (len - (off + 2)))
    } else {
        Ok((off + 2, off + 2 + n))
    }
}

fn wire_text_of(s: &[u8], a: usize, b: usize) -> (r: String)
    requires
        a <= b <= s@.len(),
    ensures
        r@ == wire_text(s@.subrange(a as int, b as int)),
{
    let ghost f = s@.subrange(a as int, b as int);
    let n = (b - a) / 2;
    let mut units: Vec<u16> = Vec::new();
    let mut i: usize = 0;
    while i < n
        invariant
            a <= b <= s@.len(),
            f == s@.subrange(a as int, b as int),
            n == f.len() / 2,
            i <= n,
            units@ =~= utf16le_units(f).subrange(0, i as int),
        decreases n - i,
    {
        assert(2 * i + 1 < f.len());
        let u = s[a + 2 * i] as u16 + 256 * s[a + 2 * i + 1] as u16;
        units.push(u);
        i = i + 1;
    }
    assert(utf16le_units(f).subrange(0, n as int) =~= utf16le_units(f));
    let cs = decode_utf16_lossy(units.as_slice());
    string_without_trailing_nuls(cs.as_slice())
}

fn bytes_between(s: &[u8], a: usize, b: usize) -> (r: Vec<u8>)
    requires
        a <= b <= s@.len(),
    ensures
        r@ == s@.subrange(a as int, b as int),
{
    let mut v: Vec<u8> = Vec::new();
    let mut i = a;
    while i < b
        invariant
            a <= i <= b <= s@.len(),
            v@ =~= s@.subrange(a as int, i as int),
        decreases b - i,
    {
        v.push(s[i]);
        i = i + 1;
    }
    v
}

/// Reads the client's RDSTLS Authentication Request from the bytes received so far. A reader
/// that always reads exactly the bytes asked for by `Need` never reads past the request.
pub fn read_rdstls_auth_request(data: &[u8]) -> (r: RdstlsRead)
    ensures
        r@ == rdstls_read(data@),
{
    let len = data.len();
    if len < 6 {
        return RdstlsRead::Need(6 - len);
    }
    let version = data[0] as u16 + 256 * data[1] as u16;
    let pdu_type = data[2] as u16 + 256 * data[3] as u16;
    let data_type = data[4] as u16 + 256 * data[5] as u16;
    if !(version == 1 && pdu_type == 2 && data_type == 1) {
        return RdstlsRead::BadHeader { version, pdu_type, data_type };
    }
    let (g0, g1) = match read_field(data, 6) {
        Err(n) => {
            return RdstlsRead::Need(n);
        },
        Ok(x) => x,
    };
    let (u0, u1) = match read_field(data, g1) {
        Err(n) => {
            return RdstlsRead::Need(n);
        },
        Ok(x) => x,
    };
    let (d0, d1) = match read_field(data, u1) {
        Err(n) => {
            return RdstlsRead::Need(n);
        },
        Ok(x) => x,
    };
    let (p0, p1) = match read_field(data, d1) {
        Err(n) => {
            return RdstlsRead::Need(n);
        },
        Ok(x) => x,
    };
    let req = RdstlsRequest {
        redirection_guid: bytes_between(data, g0, g1),
        username: wire_text_of(data, u0, u1),
        domain: wire_text_of(data, d0, d1),
        password: bytes_between(data, p0, p1),
    };
    RdstlsRead::Done(req, p1)
}

proof fn lemma_field_extends(s: Seq<u8>, t: Seq<u8>, off: int)
    requires
        0 <= off,
        field_at(s, off) is Ok,
    ensures
        field_at(s + t, off) == field_at(s, off),
{
    let (f, e) = field_at(s, off)->Ok_0;
    assert((s + t)[off] == s[off]);
    assert((s + t)[off + 1] == s[off + 1]);
    assert((s + t).subrange(off + 2, e) =~= s.subrange(off + 2, e));
}

/// What a complete request reads as does not change when more bytes arrive after it: the
/// request and its length stay the same.
pub proof fn lemma_rdstls_done_is_stable(s: Seq<u8>, t: Seq<u8>)
    requires
        rdstls_read(s) is Done,
    ensures
        rdstls_read(s + t) == rdstls_read(s),
{
    let u = s + t;
    assert(u[0] == s[0] && u[1] == s[1] && u[2] == s[2] && u[3] == s[3] && u[4] == s[4] && u[5] == s[5]);
    let p1 = field_at(s, 6)->Ok_0.1;
    lemma_field_extends(s, t, 6);
    let p2 = field_at(s, p1)->Ok_0.1;
    lemma_field_extends(s, t, p1);
    let p3 = field_at(s, p2)->Ok_0.1;
    lemma_field_extends(s, t, p2);
    lemma_field_extends(s, t, p3);
}

/// After a field that needs `n` more bytes, the bytes `s + t` with `t.len() == n` end exactly
/// where the field does.
proof fn lemma_field_fill(s: Seq<u8>, t: Seq<u8>, off: int)
    requires
        0 <= off <= s.len(),
        field_at(s, off) is Err,
        t.len() == field_at(s, off)->Err_0,
    ensures
        field_at(s + t, off) is Ok ==> field_at(s + t, off)->Ok_0.1 == (s + t).len(),
        field_at(s + t, off) is Err ==> (s + t).len() == off + 2,
{
    let u = s + t;
    if s.len() >= off + 2 {
        assert(u[off] == s[off] && u[off + 1] == s[off + 1]);
    }
}

/// Reading exactly the bytes asked for never reads past the request: when the bytes so far need
/// `n` more (`n` is at least one), then after `n` more bytes the request is either still
/// incomplete, refused for its header, or complete and ending exactly at the last byte read.
pub proof fn lemma_rdstls_exact_reads(s: Seq<u8>, t: Seq<u8>)
    requires
        rdstls_read(s) is Need,
        t.len() == rdstls_read(s)->Need_0,
    ensures
        t.len() >= 1,
        rdstls_read(s + t) is Done ==> rdstls_read(s + t)->Done_1 == (s + t).len(),
{
    let u = s + t;
    if s.len() < 6 {
        assert(u.len() == 6);
    } else {
        assert(u[0] == s[0] && u[1] == s[1] && u[2] == s[2] && u[3] == s[3] && u[4] == s[4] && u[5] == s[5]);
        if field_at(s, 6) is Err {
            lemma_field_fill(s, t, 6);
        } else {
            let p1 = field_at(s, 6)->Ok_0.1;
            lemma_field_extends(s, t, 6);
            if field_at(s, p1) is Err {
                lemma_field_fill(s, t, p1);
            } else {
                let p2 = field_at(s, p1)->Ok_0.1;
                lemma_field_extends(s, t, p1);
                if field_at(s, p2) is Err {
                    lemma_field_fill(s, t, p2);
                } else {
                    let p3 = field_at(s, p2)->Ok_0.1;
                    lemma_field_extends(s, t, p2);
                    lemma_field_fill(s, t, p3);
                }
            }
        }
    }
}

// ---------------------------------------------------------------------------------------------
// Server Redirection.
// ---------------------------------------------------------------------------------------------

/// A Server Redirection PDU's fields as plain values.
#[derive(Debug, Clone, PartialEq, Eq)]
pub struct RedirectionPdu {
    /// `SessionID`.
    pub session_id: u32,
    /// `RedirFlags`.
    pub redirection_flags: u32,
    /// `LoadBalanceInfo`.
    pub load_balance_info: Vec<u8>,
    /// `UserName`.
    pub username: String,
    /// `Password` (an opaque blob).
    pub password: Vec<u8>,
    /// `RedirectionGuid`.
    pub redirection_guid: Vec<u8>,
    /// The DER certificate that the `TargetCertificate` container holds.
    pub target_certificate: Vec<u8>,
}

/// `LB_LOAD_BALANCE_INFO | LB_USERNAME | LB_PASSWORD | LB_PASSWORD_IS_PK_ENCRYPTED |
/// LB_REDIRECTION_GUID | LB_TARGET_CERTIFICATE`.
pub const REDIRECTION_FLAGS: u32 = 0x1C016;

/// The bytes of ASCII characters.
pub open spec fn ascii_bytes(cs: Seq<char>) -> Seq<u8> {
    cs.map_values(|c: char| c as u32 as u8)
}

/// `LoadBalanceInfo` for `token`: `Cookie: msts=<token>` and CR LF.
pub open spec fn load_balance_info_of(token: u32) -> Seq<u8> {
    ascii_bytes("Cookie: msts="@ + decimal(token as nat) + "\r\n"@)
}

/// The one-time user name for `seed`: sixteen lowercase letters.
pub open spec fn redirect_username(seed: u8) -> Seq<char> {
    Seq::new(16, |i: int| (97 + ((i * 7 + seed) % 256) % 26) as char)
}

/// The password blob for `seed`: the bytes 0..34 each XOR `seed`.
pub open spec fn redirect_password(seed: u8) -> Seq<u8> {
    Seq::new(34, |i: int| (i as u8) ^ seed)
}

/// The redirection GUID for `seed`: fifty uppercase letters.
pub open spec fn redirect_guid(seed: u8) -> Seq<u8> {
    Seq::new(50, |i: int| (65 + ((i + seed) % 256) % 26) as u8)
}

fn push_ascii(out: &mut Vec<u8>, text: &str)
    ensures
        final(out)@ == old(out)@ + ascii_bytes(text@),
{
    let cs = chars_of(text);
    let mut i: usize = 0;
    while i < cs.len()
        invariant
            cs@ == text@,
            i <= cs@.len(),
            out@ =~= old(out)@ + ascii_bytes(cs@.subrange(0, i as int)),
        decreases cs@.len() - i,
    {
        let c = cs[i];
        out.push(c as u32 as u8);
        i = i + 1;
    }
    assert(cs@.subrange(0, i as int) =~= cs@);
}

/// A Server Redirection PDU shaped like g-r-d's: `RedirFlags` `0x1C016`, `LoadBalanceInfo`
/// `Cookie: msts=<token>` and CR LF, a one-time 16-letter user name, a 34-byte opaque
/// password, a 50-byte GUID and the target certificate `target_cert` (DER). No target address,
/// so the client reconnects to the same host and port. `seed` varies the one-time credentials.
pub fn redirection_pdu(token: u32, target_cert: &[u8], seed: u8) -> (r: RedirectionPdu)
    ensures
        r.session_id == 0,
        r.redirection_flags == REDIRECTION_FLAGS,
        r.load_balance_info@ == load_balance_info_of(token),
        r.username@ == redirect_username(seed),
        r.password@ == redirect_password(seed),
        r.redirection_guid@ == redirect_guid(seed),
        r.target_certificate@ == target_cert@,
{
    let mut lb: Vec<u8> = Vec::new();
    push_ascii(&mut lb, "Cookie: msts=");
    let digits = decimal_string(token as u64);
    push_ascii(&mut lb, digits.as_str());
    push_ascii(&mut lb, "\r\n");
    proof {
        assert(ascii_bytes("Cookie: msts="@ + decimal(token as nat) + "\r\n"@) =~= ascii_bytes("Cookie: msts="@)
            + ascii_bytes(decimal(token as nat)) + ascii_bytes("\r\n"@));
    }
    let mut name = String::new();
    let mut i: u8 = 0;
    while i < 16
        invariant
            i <= 16,
            name@ =~= redirect_username(seed).subrange(0, i as int),
        decreases 16 - i,
    {
        let c = (97u8 + (i.wrapping_mul(7).wrapping_add(seed)) % 26) as char;
        proof {
            assert(i.wrapping_mul(7).wrapping_add(seed) == (i * 7 + seed) % 256);
        }
        crate::text::push_char(&mut name, c);
        i = i + 1;
    }
    let mut password: Vec<u8> = Vec::new();
    let mut k: u8 = 0;
    while k < 34
        invariant
            k <= 34,
            password@ =~= redirect_password(seed).subrange(0, k as int),
        decreases 34 - k,
    {
        password.push(k ^ seed);
        k = k + 1;
    }
    let mut guid: Vec<u8> = Vec::new();
    let mut g: u8 = 0;
    while g < 50
        invariant
            g <= 50,
            guid@ =~= redirect_guid(seed).subrange(0, g as int),
        decreases 50 - g,
    {
        proof {
            assert(g.wrapping_add(seed) == (g + seed) % 256);
        }
        guid.push(65u8 + (g.wrapping_add(seed)) % 26);
        g = g + 1;
    }
    let mut cert: Vec<u8> = Vec::new();
    let mut j: usize = 0;
    while j < target_cert.len()
        invariant
            j <= target_cert@.len(),
            cert@ =~= target_cert@.subrange(0, j as int),
        decreases target_cert@.len() - j,
    {
        cert.push(target_cert[j]);
        j = j + 1;
    }
    proof {
        assert(redirect_username(seed).subrange(0, 16) =~= redirect_username(seed));
        assert(redirect_password(seed).subrange(0, 34) =~= redirect_password(seed));
        assert(redirect_guid(seed).subrange(0, 50) =~= redirect_guid(seed));
        assert(target_cert@.subrange(0, j as int) =~= target_cert@);
    }
    RedirectionPdu {
        session_id: 0,
        redirection_flags: REDIRECTION_FLAGS,
        load_balance_info: lb,
        username: name,
        password,
        redirection_guid: guid,
        target_certificate: cert,
    }
}

/// The length a TPKT header announces: the big-endian `u16` in its bytes 2 and 3.
pub open spec fn tpkt_len_of(header: Seq<u8>) -> nat {
    header[2] as nat * 256 + header[3] as nat
}

/// The length of the TPKT frame (header included) that starts with the four bytes `header`,
/// or the error for a length shorter than the header itself.
pub fn tpkt_frame_len(header: &[u8; 4]) -> (r: Result<usize, String>)
    ensures
        tpkt_len_of(header@) >= 4 ==> r == Ok::<usize, String>(tpkt_len_of(header@) as usize),
        tpkt_len_of(header@) < 4 ==> r is Err && r->Err_0@ == "bad TPKT length "@ + decimal(
            tpkt_len_of(header@),
        ),
{
    let len: usize = header[2] as usize * 256 + header[3] as usize;
    if len < 4 {
        let digits = decimal_string(len as u64);
        return Err(String::from_str("bad TPKT length ").concat(digits.as_str()));
    }
    Ok(len)
}

/// Whether a leg holds back its answers to the client's clipboard data requests, and the
/// requests (by format id) it holds.
pub struct ClipboardHold {
    hold: bool,
    held: Vec<u32>,
}

impl ClipboardHold {
    /// Whether answers are held back.
    pub closed spec fn holding(&self) -> bool {
        self.hold
    }

    /// The requests held, oldest first.
    pub closed spec fn held_view(&self) -> Seq<u32> {
        self.held@
    }

    /// Answers go out at once; nothing is held.
    pub fn new() -> (r: Self)
        ensures
            !r.holding(),
            r.held_view() == Seq::<u32>::empty(),
    {
        ClipboardHold { hold: false, held: Vec::new() }
    }

    /// The client asked for the data of format `id`: `Some(id)` when it is answered now;
    /// while answers are held the request joins the held ones instead.
    pub fn data_request(&mut self, id: u32) -> (answer: Option<u32>)
        ensures
            final(self).holding() == old(self).holding(),
            old(self).holding() ==> answer is None && final(self).held_view() == old(self).held_view().push(id),
            !old(self).holding() ==> answer == Some(id) && final(self).held_view() == old(self).held_view(),
    {
        if self.hold {
            self.held.push(id);
            None
        } else {
            Some(id)
        }
    }

    /// The script switches holding on or off; returns the requests to answer now. Switching
    /// it off answers every held request, oldest first, and holds nothing more.
    pub fn set_hold(&mut self, hold: bool) -> (answer: Vec<u32>)
        ensures
            final(self).holding() == hold,
            hold ==> answer@ == Seq::<u32>::empty() && final(self).held_view() == old(self).held_view(),
            !hold ==> answer@ == old(self).held_view() && final(self).held_view() == Seq::<u32>::empty(),
    {
        self.hold = hold;
        if hold {
            Vec::new()
        } else {
            let mut out: Vec<u32> = Vec::new();
            std::mem::swap(&mut out, &mut self.held);
            out
        }
    }
}

/// A share-data PDU the client sends on the I/O channel, as far as the server reacts to it.
pub enum ShareDataRequest {
    /// Shutdown Request (the client wants to close gracefully).
    ShutdownRequest,
    /// Suppress Output: `None` = `allowDisplayUpdates` off, `Some([l, t, r, b])` = on for that
    /// inclusive desktop rectangle.
    SuppressOutput(Option<[u16; 4]>),
    /// Anything else.
    Other,
}

/// What a leg records of the share-data PDUs on its I/O channel.
pub struct IoChannelRecord {
    /// The client sent a Shutdown Request.
    pub shutdown_requested: bool,
    /// Suppress Output PDUs, in order.
    pub suppress_output: Vec<Option<[u16; 4]>>,
}

impl IoChannelRecord {
    /// Nothing received yet.
    pub fn new() -> (r: Self)
        ensures
            !r.shutdown_requested,
            r.suppress_output@ == Seq::<Option<[u16; 4]>>::empty(),
    {
        IoChannelRecord { shutdown_requested: false, suppress_output: Vec::new() }
    }

    /// Records `pdu`; returns whether a Shutdown Denied goes back (a Shutdown Request is
    /// recorded and denied, so the client stays connected until it disconnects itself).
    pub fn receive(&mut self, pdu: ShareDataRequest) -> (deny: bool)
        ensures
            deny == (pdu is ShutdownRequest),
            final(self).shutdown_requested == (old(self).shutdown_requested || pdu is ShutdownRequest),
            final(self).suppress_output@ == (match pdu {
                ShareDataRequest::SuppressOutput(rect) => old(self).suppress_output@.push(rect),
                _ => old(self).suppress_output@,
            }),
    {
        match pdu {
            ShareDataRequest::ShutdownRequest => {
                self.shutdown_requested = true;
                true
            },
            ShareDataRequest::SuppressOutput(rect) => {
                self.suppress_output.push(rect);
                false
            },
            ShareDataRequest::Other => false,
        }
    }
}

/// What a leg does next with its scripted actions, at some time on its clock (nanoseconds).
#[derive(Debug, Clone, Copy, PartialEq, Eq)]
pub enum LegStep {
    /// Perform action `i` now.
    Run(usize),
    /// Action `i` closes the connection: the leg ends.
    Close(usize),
    /// Read the connection until the given time (then ask again), or, with `None`, until the
    /// client leaves: no action is left to wait for.
    Sleep(Option<u128>),
}

/// Whether a wait that ends at `wait_until` (if any) is over at `now`.
pub open spec fn wait_over(wait_until: Option<u128>, now: u128) -> bool {
    match wait_until {
        None => true,
        Some(t) => now >= t,
    }
}

/// `a + b`, or `u128::MAX` when that does not fit.
pub open spec fn sat_add(a: int, b: int) -> u128 {
    if a + b > u128::MAX { u128::MAX } else { (a + b) as u128 }
}

/// Taking actions from index `i` on at time `now`, with the running wait ending at `wait`:
/// waits of no length are passed over; a longer wait starts (and the leg sleeps until it ends,
/// or for good when it was the last action); `Close` and any other action are handed out. The
/// result is the step, the index after what was taken, the wait's end and how many waits were
/// taken.
pub open spec fn take_actions(actions: Seq<ServerAction>, i: int, now: u128, wait: Option<u128>) -> (
    LegStep,
    int,
    Option<u128>,
    nat,
)
    decreases actions.len() - i,
{
    if i < 0 || i >= actions.len() {
        (LegStep::Sleep(None), i, wait, 0)
    } else {
        match actions[i] {
            ServerAction::Wait(d) => if duration_nanos(d) == 0 {
                let r = take_actions(actions, i + 1, now, Some(now));
                (r.0, r.1, r.2, r.3 + 1)
            } else {
                let t = sat_add(now as int, duration_nanos(d) as int);
                (LegStep::Sleep(if i + 1 < actions.len() { Some(t) } else { None }), i + 1, Some(t), 1)
            },
            ServerAction::Close => (LegStep::Close(i as usize), i + 1, None, 0),
            _ => (LegStep::Run(i as usize), i + 1, None, 0),
        }
    }
}

/// How far a leg is through its scripted actions.
pub struct ActionCursor {
    next: usize,
    wait_until: Option<u128>,
    done: usize,
}

impl ActionCursor {
    /// The index of the next action.
    pub closed spec fn next_index(&self) -> nat {
        self.next as nat
    }

    /// When the running wait ends, if one runs.
    pub closed spec fn deadline(&self) -> Option<u128> {
        self.wait_until
    }

    /// How many actions are done (the log's `actions_done`): waits and closes when taken,
    /// other actions when performed.
    pub closed spec fn done_count(&self) -> nat {
        self.done as nat
    }

    /// At most the actions taken are done.
    pub closed spec fn wf(&self) -> bool {
        self.done <= self.next
    }

    /// At the first action, nothing done and no wait running.
    pub fn new() -> (r: Self)
        ensures
            r.wf(),
            r.next_index() == 0,
            r.deadline() is None,
            r.done_count() == 0,
    {
        ActionCursor { next: 0, wait_until: None, done: 0 }
    }

    /// How many actions are done.
    pub fn done(&self) -> (r: usize)
        ensures
            r == self.done_count(),
    {
        self.done
    }

    /// What the leg does next at time `now`: while a wait runs, it sleeps until the wait ends
    /// (for good when no action is left); once it is over, actions are taken as
    /// [`take_actions`] says.
    pub fn step(&mut self, actions: &[ServerAction], now: u128) -> (s: LegStep)
        requires
            old(self).wf(),
            old(self).next_index() <= actions@.len(),
            now <= u64::MAX,
        ensures
            final(self).wf(),
            final(self).next_index() <= actions@.len(),
            !wait_over(old(self).deadline(), now) ==> s == LegStep::Sleep(
                if old(self).next_index() < actions@.len() { old(self).deadline() } else { None },
            ) && final(self).next_index() == old(self).next_index() && final(self).deadline()
                == old(self).deadline() && final(self).done_count() == old(self).done_count(),
            wait_over(old(self).deadline(), now) ==> {
                let r = take_actions(actions@, old(self).next_index() as int, now, old(self).deadline());
                &&& s == r.0
                &&& final(self).next_index() == r.1
                &&& final(self).deadline() == r.2
                &&& final(self).done_count() == old(self).done_count() + r.3 + (if s is Close { 1nat } else { 0nat })
            },
    {
        let over = match self.wait_until {
            None => true,
            Some(t) => now >= t,
        };
        if !over {
            return LegStep::Sleep(if self.next < actions.len() { self.wait_until } else { None });
        }
        let ghost start = self.next as int;
        let ghost w0 = self.wait_until;
        let mut i = self.next;
        let mut wait = self.wait_until;
        let mut waits: usize = 0;
        loop
            invariant
                start <= i <= actions@.len(),
                waits == i - start,
                self.done <= start,
                now <= u64::MAX,
                wait_over(w0, now),
                w0 == old(self).wait_until,
                start == old(self).next,
                self.done == old(self).done,
                ({
                    let all = take_actions(actions@, start, now, w0);
                    let r = take_actions(actions@, i as int, now, wait);
                    all == (r.0, r.1, r.2, (r.3 + waits) as nat)
                }),
            decreases actions@.len() - i,
        {
            if i >= actions.len() {
                self.next = i;
                self.wait_until = wait;
                self.done = self.done + waits;
                return LegStep::Sleep(None);
            }
            match &actions[i] {
                ServerAction::Wait(d) => {
                    let dn = nanos_of(d);
                    if dn == 0 {
                        wait = Some(now);
                        waits = waits + 1;
                        i = i + 1;
                    } else {
                        let t = if dn > u128::MAX - now { u128::MAX } else { now + dn };
                        self.next = i + 1;
                        self.wait_until = Some(t);
                        self.done = self.done + waits + 1;
                        return LegStep::Sleep(if i + 1 < actions.len() { Some(t) } else { None });
                    }
                },
                ServerAction::Close => {
                    self.next = i + 1;
                    self.wait_until = None;
                    self.done = self.done + waits + 1;
                    return LegStep::Close(i);
                },
                _ => {
                    self.next = i + 1;
                    self.wait_until = None;
                    self.done = self.done + waits;
                    return LegStep::Run(i);
                },
            }
        }
    }

    /// The action handed out by [`ActionCursor::step`] was performed: one more is done.
    pub fn performed(&mut self)
        requires
            old(self).wf(),
            old(self).done_count() < old(self).next_index(),
        ensures
            final(self).wf(),
            final(self).next_index() == old(self).next_index(),
            final(self).deadline() == old(self).deadline(),
            final(self).done_count() == old(self).done_count() + 1,
    {
        self.done = self.done + 1;
    }
}

} // verus!
