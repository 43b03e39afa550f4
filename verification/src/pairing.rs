//! Pairing codes: what one machine shows and the other types, so that the two
//! find each other and know each other.

use vstd::prelude::*;

use crate::base32;
use crate::base32::{base32_decode, base32_encode, format_pairing_code, CodeError};
use crate::config;
use crate::config::CrossBagConfig;
use crate::digest;
use crate::digest::{same_bytes, Digest};
use crate::identity;
use crate::identity::NodeId;
use crate::ipv4;
use crate::ipv4::{ip_text, Ipv4};
use crate::numbers;
use crate::numbers::{decimal_text, parse_u16};
use crate::protocol::DEFAULT_PORT;
use crate::text;
use crate::text::split_at_char;
use std::sync::Arc;
use vstd::utf8;

verus! {

broadcast use vstd::string::group_string_axioms;

/// How many bytes a pairing code holds.
pub const PAIRING_CODE_BYTES: usize = 18;

/// The port of the virtual network where no listener says another.
pub const EASYTIER_PORT: u16 = 11010;

/// What a pairing code holds: where a node can be reached, on which virtual
/// network, and a token.
#[derive(Debug, Clone, Copy)]
pub struct PairingCode {
    /// All zeros where the node cannot be reached directly.
    pub physical_ip: [u8; 4],
    pub easytier_port: u16,
    /// The start of the digest of the network's name.
    pub network_name_hash: [u8; 4],
    /// The start of the digest of the network's secret.
    pub network_secret_hash: [u8; 4],
    pub auth_token: [u8; 4],
}

/// Why there is no pairing code.
#[derive(Debug, Clone)]
pub enum PairingError {
    /// The system gave no random bytes, and why.
    NoRandomness(String),
}

/// The other node, once paired.
#[derive(Debug, Clone)]
pub struct PeerInfo {
    pub node_id: NodeId,
    pub node_name: String,
    pub hostname: String,
    pub virtual_ip: String,
}

impl PairingError {
    /// The error in words.
    pub fn text(&self) -> (res: String)
        ensures
            res@ == match *self {
                PairingError::NoRandomness(why) => "Failed to generate random auth token: "@ + why@,
            },
    {
        match self {
            PairingError::NoRandomness(why) => {
                let mut res = "Failed to generate random auth token: ".to_owned();
                res.append(why);
                res
            },
        }
    }
}

impl CodeError {
    /// The error in words.
    pub fn text(&self) -> (res: String)
        ensures
            res@ == match *self {
                CodeError::Empty => "Empty pairing code"@,
                CodeError::InvalidCharacter(c) => "Invalid character in pairing code: '"@ + seq![c]
                    + "'"@,
                CodeError::WrongLength(n) => "Invalid pairing code length: expected "@
                    + numbers::decimal(PAIRING_CODE_BYTES as nat) + " bytes, got "@
                    + numbers::decimal(n as nat),
            },
    {
        match *self {
            CodeError::Empty => "Empty pairing code".to_owned(),
            CodeError::InvalidCharacter(c) => {
                let mut res = "Invalid character in pairing code: '".to_owned();
                res.push(c);
                res.append("'");
                assert(res@ =~= "Invalid character in pairing code: '"@ + seq![c] + "'"@);
                res
            },
            CodeError::WrongLength(n) => {
                let mut res = "Invalid pairing code length: expected ".to_owned();
                res.append(&decimal_text(PAIRING_CODE_BYTES as u64));
                res.append(" bytes, got ");
                res.append(&decimal_text(n as u64));
                res
            },
        }
    }
}

/// The first four bytes of the digest of a text.
pub open spec fn hash4(s: Seq<char>) -> Seq<u8> {
    digest::blake3_digest(utf8::encode_utf8(s)).take(4)
}

/// The bytes of a pairing code.
pub open spec fn code_bytes(c: PairingCode) -> Seq<u8> {
    c.physical_ip@ + seq![(c.easytier_port / 256) as u8, (c.easytier_port % 256) as u8]
        + c.network_name_hash@ + c.network_secret_hash@ + c.auth_token@
}

/// The pairing code as it is shown.
pub open spec fn code_text(c: PairingCode) -> Seq<char> {
    base32::grouped(base32::encoded(code_bytes(c)))
}

/// The pairing code that a text shows, or what is wrong with the text.
pub open spec fn code_of(s: Seq<char>) -> Result<PairingCode, CodeError> {
    match base32::decode_outcome(s) {
        Err(e) => Err(e),
        Ok(b) => if b.len() == PAIRING_CODE_BYTES {
            Ok(choose|c: PairingCode| #[trigger] code_bytes(c) == b)
        } else {
            Err(CodeError::WrongLength(b.len() as usize))
        },
    }
}

/// The four bytes of `b` from `i` on.
fn four_bytes(b: &Vec<u8>, i: usize) -> (res: [u8; 4])
    requires
        i + 4 <= b.len(),
    ensures
        res@ == b@.subrange(i as int, i + 4),
{
    let res = [b[i], b[i + 1], b[i + 2], b[i + 3]];
    assert(res@ =~= b@.subrange(i as int, i + 4));
    res
}

/// Two pairing codes with the same bytes are one.
pub proof fn code_is_its_bytes(a: PairingCode, b: PairingCode)
    requires
        code_bytes(a) == code_bytes(b),
    ensures
        a == b,
{
    let x = code_bytes(a);
    let y = code_bytes(b);
    assert(a.physical_ip@ =~= x.subrange(0, 4) && b.physical_ip@ =~= y.subrange(0, 4));
    assert(x[4] == (a.easytier_port / 256) as u8 && y[4] == (b.easytier_port / 256) as u8);
    assert(x[5] == (a.easytier_port % 256) as u8 && y[5] == (b.easytier_port % 256) as u8);
    assert(a.network_name_hash@ =~= x.subrange(6, 10) && b.network_name_hash@ =~= y.subrange(6, 10));
    assert(a.network_secret_hash@ =~= x.subrange(10, 14) && b.network_secret_hash@ =~= y.subrange(
        10,
        14,
    ));
    assert(a.auth_token@ =~= x.subrange(14, 18) && b.auth_token@ =~= y.subrange(14, 18));
    lemma_same_array(a.physical_ip, b.physical_ip);
    lemma_same_array(a.network_name_hash, b.network_name_hash);
    lemma_same_array(a.network_secret_hash, b.network_secret_hash);
    lemma_same_array(a.auth_token, b.auth_token);
}

proof fn lemma_same_array(a: [u8; 4], b: [u8; 4])
    requires
        a@ == b@,
    ensures
        a == b,
{
    assert forall|i: int| 0 <= i < 4 implies a[i] == b[i] by {
        assert(a@[i] == b@[i]);
    }
    assert(a =~= b);
}

/// Reading a pairing code gives back what it was made of.
pub proof fn decode_undoes_encode(c: PairingCode)
    ensures
        code_of(code_text(c)) == Ok::<PairingCode, CodeError>(c),
{
    let b = code_bytes(c);
    base32::grouping_keeps_the_code(base32::encoded(b));
    base32::decode_undoes_encode(b);
    let d = choose|d: PairingCode| #[trigger] code_bytes(d) == b;
    code_is_its_bytes(d, c);
}

/// A pairing code may be typed without its dashes.
pub proof fn dashes_are_optional(c: PairingCode)
    ensures
        code_of(base32::undashed(code_text(c))) == Ok::<PairingCode, CodeError>(c),
{
    decode_undoes_encode(c);
    base32::dashes_are_optional(code_text(c));
}

/// A pairing code may be typed in lower case.
pub proof fn case_does_not_matter(c: PairingCode)
    ensures
        code_of(base32::lowered(code_text(c))) == Ok::<PairingCode, CodeError>(c),
{
    decode_undoes_encode(c);
    base32::case_does_not_matter(code_text(c));
}

/// A pairing code shows five groups of five characters and one of four, with
/// dashes between them and nowhere else.
pub proof fn code_has_six_groups(c: PairingCode, i: int)
    requires
        0 <= i < code_text(c).len(),
    ensures
        code_text(c).len() == 34,
        code_text(c)[i] == '-' <==> i % 6 == 5,
{
    let b = code_bytes(c);
    let raw = base32::encoded(b);
    assert(raw.len() == 29);
    if i % 6 != 5 {
        base32::symbols_are_no_dashes(b, i - i / 6);
    }
}

/// The first four bytes of the digest of a text.
pub fn blake3_hash4(input: &str) -> (res: [u8; 4])
    ensures
        res@ == hash4(input@),
{
    let digest = Digest::of(input.as_bytes());
    let res = [digest.bytes[0], digest.bytes[1], digest.bytes[2], digest.bytes[3]];
    assert(res@ =~= digest@.take(4));
    res
}

/// `getrandom::getrandom`: four bytes that the system draws, or why it has
/// none. Nothing is promised of them.
#[verifier::external_body]
fn random_token() -> (res: Result<[u8; 4], String>) {
    let mut token = [0u8; 4];
    getrandom::getrandom(&mut token).map_err(|e| e.to_string())?;
    Ok(token)
}

impl PairingCode {
    /// The pairing code with this token.
    pub fn with_token(
        physical_ip: [u8; 4],
        easytier_port: u16,
        network_name: &str,
        network_secret: &str,
        auth_token: [u8; 4],
    ) -> (res: PairingCode)
        ensures
            res.physical_ip == physical_ip,
            res.easytier_port == easytier_port,
            res.network_name_hash@ == hash4(network_name@),
            res.network_secret_hash@ == hash4(network_secret@),
            res.auth_token == auth_token,
    {
        PairingCode {
            physical_ip,
            easytier_port,
            network_name_hash: blake3_hash4(network_name),
            network_secret_hash: blake3_hash4(network_secret),
            auth_token,
        }
    }

    /// The pairing code with the token that was drawn, if one was.
    pub fn with_draw(
        physical_ip: [u8; 4],
        easytier_port: u16,
        network_name: &str,
        network_secret: &str,
        drawn: Result<[u8; 4], String>,
    ) -> (res: Result<PairingCode, PairingError>)
        ensures
            match drawn {
                Ok(token) => res matches Ok(c) && c.physical_ip == physical_ip && c.easytier_port
                    == easytier_port && c.network_name_hash@ == hash4(network_name@)
                    && c.network_secret_hash@ == hash4(network_secret@) && c.auth_token == token,
                Err(why) => res == Err::<PairingCode, PairingError>(
                    PairingError::NoRandomness(why),
                ),
            },
    {
        match drawn {
            Ok(token) => Ok(
                PairingCode::with_token(
                    physical_ip,
                    easytier_port,
                    network_name,
                    network_secret,
                    token,
                ),
            ),
            Err(why) => Err(PairingError::NoRandomness(why)),
        }
    }

    /// A pairing code with a new token. Whether there is one, and which, the
    /// system decides.
    pub fn generate(
        physical_ip: [u8; 4],
        easytier_port: u16,
        network_name: &str,
        network_secret: &str,
    ) -> (res: Result<PairingCode, PairingError>)
        ensures
            res matches Ok(c) ==> c.physical_ip == physical_ip && c.easytier_port == easytier_port
                && c.network_name_hash@ == hash4(network_name@) && c.network_secret_hash@ == hash4(
                network_secret@,
            ),
    {
        PairingCode::with_draw(
            physical_ip,
            easytier_port,
            network_name,
            network_secret,
            random_token(),
        )
    }

    /// Reads a pairing code.
    pub fn decode(code: &str) -> (res: Result<PairingCode, CodeError>)
        ensures
            res == code_of(code@),
    {
        let bytes = match base32_decode(code) {
            Ok(b) => b,
            Err(e) => {
                return Err(e);
            },
        };
        if bytes.len() != PAIRING_CODE_BYTES {
            return Err(CodeError::WrongLength(bytes.len()));
        }
        let res = PairingCode {
            physical_ip: four_bytes(&bytes, 0),
            easytier_port: (bytes[4] as u16) * 256 + bytes[5] as u16,
            network_name_hash: four_bytes(&bytes, 6),
            network_secret_hash: four_bytes(&bytes, 10),
            auth_token: four_bytes(&bytes, 14),
        };
        proof {
            assert(code_bytes(res) =~= bytes@);
            let d = choose|d: PairingCode| #[trigger] code_bytes(d) == bytes@;
            code_is_its_bytes(d, res);
        }
        Ok(res)
    }

    /// Shows a pairing code.
    pub fn encode(&self) -> (res: String)
        ensures
            res@ == code_text(*self),
    {
        let mut buf: Vec<u8> = Vec::new();
        buf.extend_from_slice(self.physical_ip.as_slice());
        buf.push((self.easytier_port / 256) as u8);
        buf.push((self.easytier_port % 256) as u8);
        buf.extend_from_slice(self.network_name_hash.as_slice());
        buf.extend_from_slice(self.network_secret_hash.as_slice());
        buf.extend_from_slice(self.auth_token.as_slice());
        assert(buf@ =~= code_bytes(*self));
        let raw = base32_encode(buf.as_slice());
        format_pairing_code(&raw)
    }

    /// Whether the node can be reached directly.
    pub fn has_physical_ip(&self) -> (res: bool)
        ensures
            res == (self.physical_ip@ != seq![0u8, 0u8, 0u8, 0u8]),
    {
        let none = [0u8, 0u8, 0u8, 0u8];
        assert(none@ =~= seq![0u8, 0u8, 0u8, 0u8]);
        !same_bytes(self.physical_ip.as_slice(), none.as_slice())
    }

    /// The address at which the node can be reached.
    pub fn physical_ip_str(&self) -> (res: String)
        ensures
            res@ == ipv4::dotted(ip_of_bytes(self.physical_ip@)),
    {
        ip_text(
            Ipv4 {
                a: self.physical_ip[0],
                b: self.physical_ip[1],
                c: self.physical_ip[2],
                d: self.physical_ip[3],
            },
        )
    }

    /// Where the virtual network of the node can be joined.
    pub fn peer_url(&self) -> (res: String)
        ensures
            res@ == "tcp://"@ + config::address_text(
                ipv4::dotted(ip_of_bytes(self.physical_ip@)),
                self.easytier_port,
            ),
    {
        let mut res = "tcp://".to_owned();
        res.append(&self.physical_ip_str());
        res.push(':');
        res.append(&decimal_text(self.easytier_port as u64));
        assert(res@ =~= "tcp://"@ + config::address_text(
            ipv4::dotted(ip_of_bytes(self.physical_ip@)),
            self.easytier_port,
        ));
        res
    }

    pub fn easytier_port(&self) -> (res: u16)
        ensures
            res == self.easytier_port,
    {
        self.easytier_port
    }

    pub fn auth_token(&self) -> (res: [u8; 4])
        ensures
            res == self.auth_token,
    {
        self.auth_token
    }

    /// Whether the code was made on the virtual network of this name and secret,
    /// as far as the starts of their digests tell.
    pub fn verify_network(&self, name: &str, secret: &str) -> (res: bool)
        ensures
            res == (self.network_name_hash@ == hash4(name@) && self.network_secret_hash@ == hash4(
                secret@,
            )),
    {
        let name_hash = blake3_hash4(name);
        let secret_hash = blake3_hash4(secret);
        same_bytes(self.network_name_hash.as_slice(), name_hash.as_slice()) && same_bytes(
            self.network_secret_hash.as_slice(),
            secret_hash.as_slice(),
        )
    }
}

/// The address of four bytes.
pub open spec fn ip_of_bytes(b: Seq<u8>) -> Ipv4 {
    Ipv4 { a: b[0], b: b[1], c: b[2], d: b[3] }
}

/// The port of the first listener: the number after its last colon, or the
/// whole of it where it has none. Where that is no port, or there is no
/// listener, the default port.
pub open spec fn listener_port(listeners: Seq<Seq<char>>) -> u16 {
    if listeners.len() == 0 {
        EASYTIER_PORT
    } else {
        match numbers::unsigned(text::split(listeners[0], ':').last()) {
            Some(n) => if n <= u16::MAX {
                n as u16
            } else {
                EASYTIER_PORT
            },
            None => EASYTIER_PORT,
        }
    }
}

/// The port of the first listener.
pub fn port_of_listeners(listeners: &Vec<String>) -> (res: u16)
    ensures
        res == listener_port(text::texts(listeners@)),
{
    if listeners.len() == 0 {
        return EASYTIER_PORT;
    }
    let parts = split_at_char(&listeners[0], ':');
    let last = &parts[parts.len() - 1];
    assert(text::texts(parts@).last() == last@);
    match parse_u16(last) {
        Some(port) => port,
        None => EASYTIER_PORT,
    }
}

/// The side that shows a pairing code.
pub struct PairingListener {
    config: Arc<CrossBagConfig>,
    auth_token: [u8; 4],
}

/// The pairing code that a node with this configuration shows.
pub open spec fn shown_code(
    c: CrossBagConfig,
    physical_ip: [u8; 4],
    token: Seq<u8>,
    code: PairingCode,
) -> bool {
    &&& code.physical_ip == physical_ip
    &&& code.easytier_port == listener_port(text::texts(c.easytier.listeners@))
    &&& code.network_name_hash@ == hash4(c.easytier.network_name@)
    &&& code.network_secret_hash@ == hash4(c.easytier.network_secret@)
    &&& code.auth_token@ == token
}

impl PairingListener {
    /// The configuration of the node.
    pub closed spec fn settings(&self) -> CrossBagConfig {
        *self.config
    }

    /// The token that a peer has to name.
    pub closed spec fn token(&self) -> Seq<u8> {
        self.auth_token@
    }

    pub fn new(config: Arc<CrossBagConfig>) -> (res: PairingListener)
        ensures
            res.settings() == *config,
            res.token() == seq![0u8, 0u8, 0u8, 0u8],
    {
        let res = PairingListener { config, auth_token: [0, 0, 0, 0] };
        assert(res.token() =~= seq![0u8, 0u8, 0u8, 0u8]);
        res
    }

    /// Shows the code with this token, which a peer has to name from now on.
    pub fn show_code(&mut self, physical_ip: [u8; 4], token: [u8; 4]) -> (res: String)
        ensures
            final(self).settings() == old(self).settings(),
            final(self).token() == token@,
            exists|code: PairingCode| #[trigger]
                shown_code(old(self).settings(), physical_ip, token@, code) && res@ == code_text(
                    code,
                ),
    {
        let port = port_of_listeners(&self.config.easytier.listeners);
        let code = PairingCode::with_token(
            physical_ip,
            port,
            &self.config.easytier.network_name,
            &self.config.easytier.network_secret,
            token,
        );
        self.auth_token = code.auth_token();
        assert(shown_code(old(self).settings(), physical_ip, token@, code));
        code.encode()
    }

    /// Shows the code with the token that was drawn, if one was. Else the token
    /// stays as it was.
    pub fn show_draw(&mut self, physical_ip: [u8; 4], drawn: Result<[u8; 4], String>) -> (res:
        Result<String, PairingError>)
        ensures
            final(self).settings() == old(self).settings(),
            match drawn {
                Ok(token) => {
                    &&& final(self).token() == token@
                    &&& res matches Ok(s)
                    &&& exists|code: PairingCode| #[trigger]
                        shown_code(old(self).settings(), physical_ip, token@, code) && s@
                            == code_text(code)
                },
                Err(why) => final(self).token() == old(self).token() && res == Err::<
                    String,
                    PairingError,
                >(PairingError::NoRandomness(why)),
            },
    {
        match drawn {
            Ok(token) => Ok(self.show_code(physical_ip, token)),
            Err(why) => Err(PairingError::NoRandomness(why)),
        }
    }

    /// Shows a code with a new token, which a peer has to name from now on.
    /// Whether there is one, and which, the system decides.
    pub fn generate_code(&mut self, physical_ip: [u8; 4]) -> (res: Result<String, PairingError>)
        ensures
            final(self).settings() == old(self).settings(),
            res matches Ok(s) ==> exists|code: PairingCode| #[trigger]
                shown_code(old(self).settings(), physical_ip, final(self).token(), code) && s@
                    == code_text(code),
            res is Err ==> final(self).token() == old(self).token(),
    {
        self.show_draw(physical_ip, random_token())
    }

    /// The token that a peer has to name.
    pub fn auth_token(&self) -> (res: [u8; 4])
        ensures
            res@ == self.token(),
    {
        self.auth_token
    }
}

/// The configuration with the other node as a peer, at its virtual address.
pub fn save_peer_to_config(config: &mut CrossBagConfig, peer: &PeerInfo)
    ensures
        ({
            let key = identity::id_text(peer.node_id@);
            let before = old(config).network.peers@;
            let after = final(config).network.peers@;
            &&& after.dom() == before.dom().insert(key)
            &&& after[key].name@ == peer.node_name@
            &&& after[key].address@ == config::address_text(peer.virtual_ip@, DEFAULT_PORT)
            &&& forall|k: Seq<char>|
                k != key && #[trigger] before.contains_key(k) ==> after[k] == before[k]
        }),
        final(config).network.connect_timeout == old(config).network.connect_timeout,
        final(config).network.heartbeat_interval == old(config).network.heartbeat_interval,
        final(config).network.transfer_timeout == old(config).network.transfer_timeout,
        final(config).node == old(config).node,
        final(config).easytier == old(config).easytier,
        final(config).sync_pairs == old(config).sync_pairs,
        final(config).advanced == old(config).advanced,
{
    let mut address = peer.virtual_ip.clone();
    address.push(':');
    address.append(&decimal_text(DEFAULT_PORT as u64));
    assert(address@ =~= config::address_text(peer.virtual_ip@, DEFAULT_PORT));
    config.put_peer(peer.node_id.text(), peer.node_name.clone(), address);
}

/// The network fields of a code are the first four bytes of the digests of the
/// whole name and of the whole secret of the network; `name` and `secret` are
/// those digests. The other fields are what the code was made of.
pub proof fn codes_hold_digests_of_the_whole(
    physical_ip: [u8; 4],
    easytier_port: u16,
    network_name: &str,
    network_secret: &str,
    auth_token: [u8; 4],
    code: PairingCode,
    name_bytes: &[u8],
    secret_bytes: &[u8],
    name: Digest,
    secret: Digest,
)
    requires
        call_ensures(
            PairingCode::with_token,
            (physical_ip, easytier_port, network_name, network_secret, auth_token),
            code,
        ),
        name_bytes@ == utf8::encode_utf8(network_name@),
        secret_bytes@ == utf8::encode_utf8(network_secret@),
        call_ensures(Digest::of, (name_bytes,), name),
        call_ensures(Digest::of, (secret_bytes,), secret),
    ensures
        forall|i: int|
            0 <= i < 4 ==> #[trigger] code.network_name_hash@[i] == digest::blake3_digest(
                utf8::encode_utf8(network_name@),
            )[i] && code.network_name_hash@[i] == name.bytes@[i],
        forall|i: int|
            0 <= i < 4 ==> #[trigger] code.network_secret_hash@[i] == digest::blake3_digest(
                utf8::encode_utf8(network_secret@),
            )[i] && code.network_secret_hash@[i] == secret.bytes@[i],
        code.physical_ip@ == physical_ip@,
        code.easytier_port == easytier_port,
        code.auth_token@ == auth_token@,
{
    assert(name.bytes@.len() == 32 && secret.bytes@.len() == 32);
}

/// The short digest of a text is the start of the digest of the whole of it.
pub proof fn short_digests_are_starts(
    input: &str,
    bytes: &[u8],
    whole: Digest,
    res: [u8; 4],
)
    requires
        call_ensures(blake3_hash4, (input,), res),
        bytes@ == utf8::encode_utf8(input@),
        call_ensures(Digest::of, (bytes,), whole),
    ensures
        forall|i: int|
            0 <= i < 4 ==> #[trigger] res@[i] == digest::blake3_digest(utf8::encode_utf8(input@))[i]
                && res@[i] == whole.bytes@[i],
{
    assert(whole.bytes@.len() == 32);
}

/// A code belongs to a network exactly if the digests of the network's whole name
/// and whole secret start as its fields tell.
pub proof fn digests_decide_the_network(
    code: &PairingCode,
    name: &str,
    secret: &str,
    res: bool,
    name_bytes: &[u8],
    secret_bytes: &[u8],
    name_digest: Digest,
    secret_digest: Digest,
)
    requires
        call_ensures(PairingCode::verify_network, (code, name, secret), res),
        name_bytes@ == utf8::encode_utf8(name@),
        secret_bytes@ == utf8::encode_utf8(secret@),
        call_ensures(Digest::of, (name_bytes,), name_digest),
        call_ensures(Digest::of, (secret_bytes,), secret_digest),
    ensures
        res ==> forall|i: int|
            0 <= i < 4 ==> #[trigger] code.network_name_hash@[i] == digest::blake3_digest(
                utf8::encode_utf8(name@),
            )[i] && code.network_secret_hash@[i] == digest::blake3_digest(
                utf8::encode_utf8(secret@),
            )[i],
        !res ==> exists|i: int|
            0 <= i < 4 && (#[trigger] code.network_name_hash@[i] != digest::blake3_digest(
                utf8::encode_utf8(name@),
            )[i] || code.network_secret_hash@[i] != digest::blake3_digest(
                utf8::encode_utf8(secret@),
            )[i]),
{
    let n = digest::blake3_digest(utf8::encode_utf8(name@));
    let s = digest::blake3_digest(utf8::encode_utf8(secret@));
    let a = code.network_name_hash@;
    let b = code.network_secret_hash@;
    assert(name_digest.bytes@ == n && n.len() == 32);
    assert(secret_digest.bytes@ == s && s.len() == 32);
    assert(res == (a == n.take(4) && b == s.take(4)));
    if res {
        assert forall|i: int| 0 <= i < 4 implies #[trigger] a[i] == n[i] && b[i] == s[i] by {
            assert(n.take(4)[i] == n[i] && s.take(4)[i] == s[i]);
        }
    } else if forall|i: int| 0 <= i < 4 ==> #[trigger] a[i] == n[i] && b[i] == s[i] {
        assert(a[0] == n[0] && a[1] == n[1] && a[2] == n[2] && a[3] == n[3]);
        assert(b[0] == s[0] && b[1] == s[1] && b[2] == s[2] && b[3] == s[3]);
        assert(a =~= n.take(4));
        assert(b =~= s.take(4));
    }
}

/// A code that was made for a network is known to belong to it.
pub proof fn codes_belong_to_their_network(
    physical_ip: [u8; 4],
    easytier_port: u16,
    network_name: &str,
    network_secret: &str,
    auth_token: [u8; 4],
    code: PairingCode,
    res: bool,
)
    requires
        call_ensures(
            PairingCode::with_token,
            (physical_ip, easytier_port, network_name, network_secret, auth_token),
            code,
        ),
        call_ensures(PairingCode::verify_network, (&code, network_name, network_secret), res),
    ensures
        res,
{
}

/// A code that was drawn is made of what was given, of the digests of the network
/// and of the token that was drawn; without a token there is none, and why is
/// told.
pub proof fn draws_make_codes(
    physical_ip: [u8; 4],
    easytier_port: u16,
    network_name: &str,
    network_secret: &str,
    drawn: Result<[u8; 4], String>,
    name: [u8; 4],
    secret: [u8; 4],
    res: Result<PairingCode, PairingError>,
)
    requires
        call_ensures(
            PairingCode::with_draw,
            (physical_ip, easytier_port, network_name, network_secret, drawn),
            res,
        ),
        call_ensures(blake3_hash4, (network_name,), name),
        call_ensures(blake3_hash4, (network_secret,), secret),
    ensures
        drawn matches Ok(token) ==> (res matches Ok(c) && c.physical_ip@ == physical_ip@
            && c.easytier_port == easytier_port && c.network_name_hash@ == name@
            && c.network_secret_hash@ == secret@ && c.auth_token@ == token@),
        drawn matches Err(why) ==> (res matches Err(PairingError::NoRandomness(said)) && said@
            == why@),
{
}

/// A code that is generated is made of what was given and of the digests of the
/// network.
pub proof fn generated_codes_are_for_the_network(
    physical_ip: [u8; 4],
    easytier_port: u16,
    network_name: &str,
    network_secret: &str,
    code: PairingCode,
    belongs: bool,
)
    requires
        call_ensures(
            PairingCode::generate,
            (physical_ip, easytier_port, network_name, network_secret),
            Ok(code),
        ),
        call_ensures(PairingCode::verify_network, (&code, network_name, network_secret), belongs),
    ensures
        belongs,
        code.physical_ip@ == physical_ip@,
        code.easytier_port == easytier_port,
{
}

/// What is shown of a code reads back as the code.
pub proof fn shown_codes_read_back(
    code: PairingCode,
    shown: String,
    typed: &str,
    res: Result<PairingCode, CodeError>,
)
    requires
        call_ensures(PairingCode::encode, (&code,), shown),
        call_ensures(PairingCode::decode, (typed,), res),
        typed@.filter(|c: char| c != '-') == shown@.filter(|c: char| c != '-'),
    ensures
        res matches Ok(c) && c.physical_ip@ == code.physical_ip@ && c.easytier_port
            == code.easytier_port && c.network_name_hash@ == code.network_name_hash@
            && c.network_secret_hash@ == code.network_secret_hash@ && c.auth_token@
            == code.auth_token@,
{
    decode_undoes_encode(code);
    assert(base32::undashed(typed@) == base32::undashed(shown@));
}

/// The bytes that a code spells are, in this order, the address, the port with
/// its higher byte first, the starts of the two digests, and the token.
pub proof fn codes_spell_their_fields(
    code: PairingCode,
    shown: String,
    typed: &str,
    res: Result<Vec<u8>, CodeError>,
)
    requires
        call_ensures(PairingCode::encode, (&code,), shown),
        call_ensures(base32_decode, (typed,), res),
        typed@ == shown@,
    ensures
        res matches Ok(b) && b@.len() == 18 && b@.subrange(0, 4) == code.physical_ip@ && 256 * b@[4]
            + b@[5] == code.easytier_port && b@.subrange(6, 10) == code.network_name_hash@
            && b@.subrange(10, 14) == code.network_secret_hash@ && b@.subrange(14, 18)
            == code.auth_token@,
{
    let bytes = code_bytes(code);
    base32::grouping_keeps_the_code(base32::encoded(bytes));
    base32::decode_undoes_encode(bytes);
    let b = res->Ok_0;
    assert(b@ == bytes);
    assert(b@.subrange(0, 4) =~= code.physical_ip@);
    assert(b@.subrange(6, 10) =~= code.network_name_hash@);
    assert(b@.subrange(10, 14) =~= code.network_secret_hash@);
    assert(b@.subrange(14, 18) =~= code.auth_token@);
}

/// A text is read as a code exactly if it spells eighteen bytes; else it is
/// refused as it would be as plain bytes, or for its length.
pub proof fn only_eighteen_bytes_are_a_code(
    typed: &str,
    bytes: Result<Vec<u8>, CodeError>,
    res: Result<PairingCode, CodeError>,
)
    requires
        call_ensures(base32_decode, (typed,), bytes),
        call_ensures(PairingCode::decode, (typed,), res),
    ensures
        res is Ok == (bytes matches Ok(b) && b@.len() == 18),
        bytes matches Err(e) ==> res == Err::<PairingCode, CodeError>(e),
        bytes matches Ok(b) ==> (b@.len() != 18 ==> (res matches Err(CodeError::WrongLength(n)) && n
            == b@.len())),
{
    if let Ok(b) = bytes {
        assert(b@.len() <= usize::MAX) by {
            vstd::std_specs::vec::axiom_spec_len(&b);
        }
    }
}

/// A code tells an address by which the other machine can be reached exactly if
/// it is not all zeros.
pub proof fn noughts_are_no_address(code: &PairingCode, res: bool)
    requires
        call_ensures(PairingCode::has_physical_ip, (code,), res),
    ensures
        res == !(code.physical_ip@[0] == 0 && code.physical_ip@[1] == 0 && code.physical_ip@[2] == 0
            && code.physical_ip@[3] == 0),
{
    if code.physical_ip@[0] == 0 && code.physical_ip@[1] == 0 && code.physical_ip@[2] == 0
        && code.physical_ip@[3] == 0 {
        assert(code.physical_ip@ =~= seq![0u8, 0u8, 0u8, 0u8]);
    }
}

/// The address of the other machine is written with its four numbers, and the
/// address of its network with the port behind it.
pub proof fn addresses_are_written_out(
    code: &PairingCode,
    address: String,
    url: String,
    a: String,
    b: String,
    c: String,
    d: String,
    port: String,
)
    requires
        call_ensures(PairingCode::physical_ip_str, (code,), address),
        call_ensures(PairingCode::peer_url, (code,), url),
        call_ensures(decimal_text, (code.physical_ip@[0] as u64,), a),
        call_ensures(decimal_text, (code.physical_ip@[1] as u64,), b),
        call_ensures(decimal_text, (code.physical_ip@[2] as u64,), c),
        call_ensures(decimal_text, (code.physical_ip@[3] as u64,), d),
        call_ensures(decimal_text, (code.easytier_port as u64,), port),
    ensures
        address@ == a@ + seq!['.'] + b@ + seq!['.'] + c@ + seq!['.'] + d@,
        url@ == "tcp://"@ + address@ + seq![':'] + port@,
{
    assert(address@ =~= a@ + seq!['.'] + b@ + seq!['.'] + c@ + seq!['.'] + d@);
    assert(url@ =~= "tcp://"@ + address@ + seq![':'] + port@);
}

proof fn lemma_split_last(a: Seq<char>, sep: char, b: Seq<char>)
    requires
        forall|i: int| 0 <= i < b.len() ==> b[i] != sep,
    ensures
        text::split(a.push(sep) + b, sep).last() == b,
{
    text::lemma_split_both(a, sep, b, text::is_char(sep));
    text::lemma_split_whole(b, sep);
}

/// The port of a network is the one behind the last colon of its first listener,
/// whatever stands before it.
pub proof fn ports_stand_behind_the_colon(
    listeners: &Vec<String>,
    res: u16,
    before: Seq<char>,
    port: u16,
    written: String,
)
    requires
        call_ensures(port_of_listeners, (listeners,), res),
        call_ensures(decimal_text, (port as u64,), written),
        listeners@.len() > 0,
        listeners@[0]@ == before.push(':') + written@,
    ensures
        res == port,
{
    numbers::lemma_decimal_digits(port as nat);
    numbers::lemma_unsigned_decimal(port as nat);
    assert forall|i: int| 0 <= i < written@.len() implies written@[i] != ':' by {
        assert(numbers::is_digit(written@[i]));
    }
    lemma_split_last(before, ':', written@);
    assert(text::texts(listeners@)[0] == listeners@[0]@);
    assert(text::texts(listeners@).len() == listeners@.len());
}

/// A network without listeners has the usual port.
pub proof fn the_usual_port_is_11010(listeners: &Vec<String>, res: u16)
    requires
        call_ensures(port_of_listeners, (listeners,), res),
        listeners@.len() == 0,
    ensures
        res == 11010,
{
    assert(text::texts(listeners@).len() == 0);
}

/// The code that a listener shows reads back with the token that a peer has to
/// name from then on, the address that was given, the port of the network and
/// the digests of the network of the configuration.
pub proof fn listeners_show_their_token(
    listener: &mut PairingListener,
    physical_ip: [u8; 4],
    token: [u8; 4],
    shown: String,
    typed: &str,
    res: Result<PairingCode, CodeError>,
    port: u16,
    name: [u8; 4],
    secret: [u8; 4],
    network_name: &str,
    network_secret: &str,
)
    requires
        call_ensures(PairingListener::show_code, (listener, physical_ip, token), shown),
        call_ensures(PairingCode::decode, (typed,), res),
        typed@ == shown@,
        call_ensures(port_of_listeners, (&old(listener).settings().easytier.listeners,), port),
        network_name@ == old(listener).settings().easytier.network_name@,
        network_secret@ == old(listener).settings().easytier.network_secret@,
        call_ensures(blake3_hash4, (network_name,), name),
        call_ensures(blake3_hash4, (network_secret,), secret),
    ensures
        final(listener).token() == token@,
        res matches Ok(c) && c.auth_token@ == token@ && c.physical_ip@ == physical_ip@
            && c.easytier_port == port && c.network_name_hash@ == name@ && c.network_secret_hash@
            == secret@,
{
    let code = choose|code: PairingCode| #[trigger]
        shown_code(old(listener).settings(), physical_ip, token@, code) && shown@ == code_text(
            code,
        );
    decode_undoes_encode(code);
}

/// A failed draw shows no code and leaves the token as it was; a token that was
/// drawn is the one to be named from then on.
pub proof fn draws_set_the_token(
    listener: &mut PairingListener,
    physical_ip: [u8; 4],
    drawn: Result<[u8; 4], String>,
    res: Result<String, PairingError>,
    typed: &str,
    read: Result<PairingCode, CodeError>,
)
    requires
        call_ensures(PairingListener::show_draw, (listener, physical_ip, drawn), res),
        call_ensures(PairingCode::decode, (typed,), read),
        res matches Ok(shown) ==> typed@ == shown@,
    ensures
        res is Ok == drawn is Ok,
        drawn matches Ok(token) ==> final(listener).token() == token@ && (read matches Ok(c)
            && c.auth_token@ == token@ && c.physical_ip@ == physical_ip@),
        drawn matches Err(why) ==> final(listener).token() == old(listener).token() && (
        res matches Err(PairingError::NoRandomness(said)) && said@ == why@),
{
    if let Ok(token) = drawn {
        let shown = res->Ok_0;
        let code = choose|code: PairingCode| #[trigger]
            shown_code(old(listener).settings(), physical_ip, token@, code) && shown@ == code_text(
                code,
            );
        decode_undoes_encode(code);
    }
}

/// The code that a listener generates reads back with the token that it then
/// waits for.
pub proof fn generated_codes_tell_the_token(
    listener: &mut PairingListener,
    physical_ip: [u8; 4],
    shown: String,
    typed: &str,
    read: Result<PairingCode, CodeError>,
)
    requires
        call_ensures(PairingListener::generate_code, (listener, physical_ip), Ok(shown)),
        call_ensures(PairingCode::decode, (typed,), read),
        typed@ == shown@,
    ensures
        read matches Ok(c) && c.auth_token@ == final(listener).token() && c.physical_ip@
            == physical_ip@,
{
    let code = choose|code: PairingCode| #[trigger]
        shown_code(old(listener).settings(), physical_ip, final(listener).token(), code) && shown@
            == code_text(code);
    decode_undoes_encode(code);
}

/// A node that was paired becomes a peer under its identifier, with its name, at
/// its virtual address and the usual port; the other peers stay as they are.
pub proof fn paired_nodes_become_peers(
    config: &mut CrossBagConfig,
    peer: &PeerInfo,
    key: String,
    port: String,
    other: Seq<char>,
)
    requires
        call_ensures(save_peer_to_config, (config, peer), ()),
        call_ensures(NodeId::text, (&peer.node_id,), key),
        call_ensures(decimal_text, (9527,), port),
        other != key@,
    ensures
        final(config).network.peers@.contains_key(key@),
        final(config).network.peers@[key@].name@ == peer.node_name@,
        final(config).network.peers@[key@].address@ == peer.virtual_ip@ + seq![':'] + port@,
        final(config).network.peers@.contains_key(other) == old(
            config,
        ).network.peers@.contains_key(other),
        old(config).network.peers@.contains_key(other) ==> final(config).network.peers@[other]
            == old(config).network.peers@[other],
        final(config).node == old(config).node,
        final(config).sync_pairs == old(config).sync_pairs,
        final(config).easytier == old(config).easytier,
        final(config).advanced == old(config).advanced,
{
    assert(final(config).network.peers@.dom().contains(key@));
    assert(final(config).network.peers@.dom().contains(other) == old(
        config,
    ).network.peers@.dom().contains(other));
}

} // verus!
