//! Identity and bootstrap: what a node listens on, whom it dials first, and
//! which keypair it runs under, by role.

use vstd::prelude::*;
use libp2p::identity::{DecodingError, Keypair};
use libp2p::Multiaddr;

verus! {

#[verifier::external_type_specification]
#[verifier::external_body]
pub struct ExKeypair(Keypair);

#[verifier::external_type_specification]
#[verifier::external_body]
pub struct ExDecodingError(DecodingError);

#[verifier::external_type_specification]
#[verifier::external_body]
pub struct ExMultiaddrError(libp2p::multiaddr::Error);

#[verifier::external_type_specification]
#[verifier::external_body]
pub struct ExBase64DecodeError(base64::DecodeError);

/// The role of a node, fixed at startup.
#[derive(Debug, Clone, Copy, PartialEq, Eq, Structural)]
pub enum Role {
    /// The rendezvous node: a fixed identity on a well-known port.
    Bootstrap,
    /// Any other node: a fresh identity on an ephemeral port; it dials the
    /// bootstrap node once at startup.
    Regular,
}

/// Why a node could not start.
#[derive(Debug, Clone, Copy, PartialEq, Eq, Structural)]
pub enum StartError {
    /// The bootstrap key is not standard base64.
    BootKeyEncoding,
    /// The bootstrap key's bytes are no protobuf-encoded keypair.
    BootKey,
    /// An address is no multiaddress.
    Address,
}

/// The UDP port on which the bootstrap node listens.
pub const BOOT_LISTEN_PORT: u16 = 50000;

/// The bootstrap node's listen address: every interface, the fixed port, QUIC.
pub const BOOT_LISTEN_ADDR: &'static str = "/ip4/0.0.0.0/udp/50000/quic-v1";

/// A regular node's listen address: every interface, a port that the system
/// picks, QUIC.
pub const EPHEMERAL_LISTEN_ADDR: &'static str = "/ip4/0.0.0.0/udp/0/quic-v1";

/// Where a regular node finds the bootstrap node.
pub const BOOT_DIAL_ADDR: &'static str = "/ip4/127.0.0.1/udp/50000/quic-v1";

/// Insecure default for local testing only: the protobuf-encoded keypair of
/// the bootstrap node, in standard base64. A deployment injects its own.
pub const INSECURE_DEFAULT_BOOT_KEY: &'static str = "CAESQC9T5dUHWfbZE/eHE9zPeHVkrPFjn/73BK06LyCR4PWtGZH9dCIm1fLISYzSE9DvSJi02NWJSkhT7C1tzvaLH1E=";

/// Idle time, in seconds, after which a connection is closed: ten minutes,
/// so that a slow game does not lose its peer.
pub const IDLE_TIMEOUT_SECS: u64 = 600;

/// The listen and dial addresses of a node.
pub struct ListenPlan {
    /// The UDP port to listen on; 0 lets the system pick one.
    pub listen_port: u16,
    /// The address to listen on.
    pub listen_addr: &'static str,
    /// The addresses to dial once at startup, in order.
    pub dial_addrs: Vec<&'static str>,
}

/// Whether `text` is the flag that selects the bootstrap role.
pub open spec fn is_boot_flag(text: Seq<char>) -> bool {
    text == seq!['-', 'b']
}

impl Role {
    /// The role that the first command-line argument selects: `-b` for the
    /// bootstrap node, anything else or nothing for a regular one.
    pub fn from_flag(flag: Option<&str>) -> (r: Role)
        ensures
            r == Role::Bootstrap <==> (flag matches Some(f) && is_boot_flag(f@)),
    {
        match flag {
            None => Role::Regular,
            Some(f) => {
                if f.unicode_len() == 2 && f.get_char(0) == '-' && f.get_char(1) == 'b' {
                    assert(f@ =~= seq!['-', 'b']);
                    Role::Bootstrap
                } else {
                    Role::Regular
                }
            },
        }
    }
}

/// Where a node of `role` listens and whom it dials: the bootstrap node
/// listens on the fixed port and dials nobody; a regular node listens on an
/// ephemeral port and dials the bootstrap node exactly once.
pub fn listen_plan(role: Role) -> (r: ListenPlan)
    ensures
        role == Role::Bootstrap ==> r.listen_port == BOOT_LISTEN_PORT && r.listen_addr@ == BOOT_LISTEN_ADDR@
            && r.dial_addrs@.len() == 0,
        role == Role::Regular ==> r.listen_port == 0 && r.listen_addr@ == EPHEMERAL_LISTEN_ADDR@
            && r.dial_addrs@.len() == 1 && r.dial_addrs@[0]@ == BOOT_DIAL_ADDR@,
{
    match role {
        Role::Bootstrap => ListenPlan { listen_port: BOOT_LISTEN_PORT, listen_addr: BOOT_LISTEN_ADDR, dial_addrs: Vec::new() },
        Role::Regular => {
            let mut dial_addrs: Vec<&'static str> = Vec::new();
            dial_addrs.push(BOOT_DIAL_ADDR);
            ListenPlan { listen_port: 0, listen_addr: EPHEMERAL_LISTEN_ADDR, dial_addrs }
        },
    }
}

/// Whether the multiaddr crate accepts `text` as an address.
pub uninterp spec fn multiaddr_parses(text: Seq<char>) -> bool;

/// Relies on `Multiaddr`'s `FromStr`: it accepts or refuses the text by its
/// characters alone.
#[verifier::external_body]
fn parse_multiaddr(text: &str) -> (r: Result<Multiaddr, libp2p::multiaddr::Error>)
    ensures
        r is Ok <==> multiaddr_parses(text@),
{
    text.parse::<Multiaddr>()
}

/// Parses a configured address; one that is no multiaddress stops startup.
pub fn parse_address(text: &str) -> (r: Result<Multiaddr, StartError>)
    ensures
        r is Ok <==> multiaddr_parses(text@),
        r is Err ==> r == Err::<Multiaddr, StartError>(StartError::Address),
{
    match parse_multiaddr(text) {
        Ok(a) => Ok(a),
        Err(_) => Err(StartError::Address),
    }
}

/// What standard base64 decodes `text` to, if it is valid.
pub uninterp spec fn base64_standard_decode(text: Seq<char>) -> Option<Seq<u8>>;

/// Relies on base64's standard engine (`general_purpose::STANDARD.decode`):
/// the bytes that the text encodes, or an error where it is no valid
/// padded standard base64.
#[verifier::external_body]
fn decode_base64(text: &str) -> (r: Result<Vec<u8>, base64::DecodeError>)
    ensures
        match r {
            Ok(v) => base64_standard_decode(text@) == Some(v@),
            Err(_) => base64_standard_decode(text@) is None,
        },
{
    base64::Engine::decode(&base64::engine::general_purpose::STANDARD, text)
}

/// Whether the bytes are a protobuf-encoded private key that libp2p accepts.
pub uninterp spec fn protobuf_keypair_valid(bytes: Seq<u8>) -> bool;

/// Relies on `Keypair::from_protobuf_encoding`: decodes a keypair from its
/// protobuf encoding, or fails, by the bytes alone.
#[verifier::external_body]
fn keypair_from_protobuf(bytes: &[u8]) -> (r: Result<Keypair, DecodingError>)
    ensures
        r is Ok <==> protobuf_keypair_valid(bytes@),
{
    Keypair::from_protobuf_encoding(bytes)
}

/// Relies on `Keypair::generate_ed25519`: a fresh random Ed25519 keypair.
#[verifier::external_body]
fn fresh_keypair() -> (r: Keypair) {
    Keypair::generate_ed25519()
}

/// The keypair that a node of `role` runs under: the bootstrap node's is
/// decoded from `boot_key` (protobuf, in standard base64); a regular node
/// gets a fresh one, and `boot_key` is not read.
pub fn node_identity(role: Role, boot_key: &str) -> (r: Result<Keypair, StartError>)
    ensures
        role == Role::Regular ==> r is Ok,
        role == Role::Bootstrap ==> match base64_standard_decode(boot_key@) {
            None => r == Err::<Keypair, StartError>(StartError::BootKeyEncoding),
            Some(bytes) => if protobuf_keypair_valid(bytes) {
                r is Ok
            } else {
                r == Err::<Keypair, StartError>(StartError::BootKey)
            },
        },
{
    match role {
        Role::Regular => Ok(fresh_keypair()),
        Role::Bootstrap => match decode_base64(boot_key) {
            Err(_) => Err(StartError::BootKeyEncoding),
            Ok(bytes) => match keypair_from_protobuf(bytes.as_slice()) {
                Ok(k) => Ok(k),
                Err(_) => Err(StartError::BootKey),
            },
        },
    }
}

} // verus!
