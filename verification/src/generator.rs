//! Proxy configurations for one address (VLESS, VMess and Trojan over WebSocket,
//! TCP or gRPC, all with TLS) and the share links that clients import.

use crate::decoding::{base64_decoded, lemma_base64_round_trip};
use crate::text::{
    contains_text, decimal, is_digit, join_strings, joined, lemma_decimal_value,
    lemma_joined_contains, occurs_at, push_decimal, push_str, string_views,
};
use crate::trusted::{
    base64_encode, base64_fits, base64_standard, gen_range_u32, is_v4_uuid_text, json_escaped,
    json_quote, json_string, new_v4_uuid, percent_encoded, thread_rng, to_uppercase, uppercased, url_encode,
};
use vstd::prelude::*;
use vstd::string::*;
use vstd::utf8::*;

verus! {

broadcast use vstd::string::group_string_axioms;

impl Default for ConfigGenerator {
    fn default() -> (r: Self)
        ensures
            r.has_default_lists(),
    {
        Self::new()
    }
}

/// One proxy configuration.
#[derive(Debug, Clone)]
pub struct ProxyConfig {
    pub protocol: String,
    pub transmission: String,
    pub address: String,
    pub port: u16,
    pub uuid: String,
    pub sni: String,
    pub host: String,
    pub path: String,
    pub alpn: String,
    pub fingerprint: String,
    pub service_name: String,
}

/// The plain values of a `ProxyConfig`.
pub struct ProxyConfigView {
    pub protocol: Seq<char>,
    pub transmission: Seq<char>,
    pub address: Seq<char>,
    pub port: u16,
    pub uuid: Seq<char>,
    pub sni: Seq<char>,
    pub host: Seq<char>,
    pub path: Seq<char>,
    pub alpn: Seq<char>,
    pub fingerprint: Seq<char>,
    pub service_name: Seq<char>,
}

impl View for ProxyConfig {
    type V = ProxyConfigView;

    open spec fn view(&self) -> ProxyConfigView {
        ProxyConfigView {
            protocol: self.protocol@,
            transmission: self.transmission@,
            address: self.address@,
            port: self.port,
            uuid: self.uuid@,
            sni: self.sni@,
            host: self.host@,
            path: self.path@,
            alpn: self.alpn@,
            fingerprint: self.fingerprint@,
            service_name: self.service_name@,
        }
    }
}

/// The six kinds of configuration made for every address.
#[derive(Clone, Copy, Debug)]
pub enum ConfigKind {
    VlessWs,
    VlessTcp,
    VlessGrpc,
    VmessWs,
    TrojanWs,
    TrojanGrpc,
}

/// The kinds in the order `generate_all_configs` makes them.
pub open spec fn kind_at(i: int) -> ConfigKind {
    if i == 0 {
        ConfigKind::VlessWs
    } else if i == 1 {
        ConfigKind::VlessTcp
    } else if i == 2 {
        ConfigKind::VlessGrpc
    } else if i == 3 {
        ConfigKind::VmessWs
    } else if i == 4 {
        ConfigKind::TrojanWs
    } else {
        ConfigKind::TrojanGrpc
    }
}

/// The protocol name of a kind.
pub open spec fn kind_protocol(kind: ConfigKind) -> Seq<char> {
    match kind {
        ConfigKind::VlessWs | ConfigKind::VlessTcp | ConfigKind::VlessGrpc => "vless"@,
        ConfigKind::VmessWs => "vmess"@,
        ConfigKind::TrojanWs | ConfigKind::TrojanGrpc => "trojan"@,
    }
}

/// The transport name of a kind.
pub open spec fn kind_transmission(kind: ConfigKind) -> Seq<char> {
    match kind {
        ConfigKind::VlessTcp => "tcp"@,
        ConfigKind::VlessGrpc | ConfigKind::TrojanGrpc => "grpc"@,
        _ => "ws"@,
    }
}

/// Kinds that run over WebSocket and carry a path.
pub open spec fn uses_path(kind: ConfigKind) -> bool {
    kind is VlessWs || kind is VmessWs || kind is TrojanWs
}

/// Kinds that run over gRPC and carry a service name.
pub open spec fn uses_grpc(kind: ConfigKind) -> bool {
    kind is VlessGrpc || kind is TrojanGrpc
}

/// The prefix of the gRPC service name of a kind.
pub open spec fn service_prefix(kind: ConfigKind) -> Seq<char> {
    match kind {
        ConfigKind::VlessGrpc => "vl"@,
        _ => "tr"@,
    }
}

fn protocol_name(kind: ConfigKind) -> (r: &'static str)
    ensures
        r@ == kind_protocol(kind),
{
    match kind {
        ConfigKind::VlessWs | ConfigKind::VlessTcp | ConfigKind::VlessGrpc => "vless",
        ConfigKind::VmessWs => "vmess",
        ConfigKind::TrojanWs | ConfigKind::TrojanGrpc => "trojan",
    }
}

fn transmission_name(kind: ConfigKind) -> (r: &'static str)
    ensures
        r@ == kind_transmission(kind),
{
    match kind {
        ConfigKind::VlessTcp => "tcp",
        ConfigKind::VlessGrpc | ConfigKind::TrojanGrpc => "grpc",
        _ => "ws",
    }
}

/// The random picks that go into one configuration: indices into the SNI, path and
/// fingerprint lists, and the number in a gRPC service name.
#[derive(Clone, Copy, Debug)]
pub struct RandomChoices {
    pub sni: usize,
    pub path: usize,
    pub fingerprint: usize,
    pub service_number: u32,
}

/// The lowest gRPC service number drawn.
pub const SERVICE_NUMBER_LOW: u32 = 1000;

/// One more than the highest gRPC service number drawn.
pub const SERVICE_NUMBER_HIGH: u32 = 9999;

/// Makes proxy configurations and share links.
pub struct ConfigGenerator {
    snis: Vec<&'static str>,
    paths: Vec<&'static str>,
    fingerprints: Vec<&'static str>,
}

impl ConfigGenerator {
    #[verifier::type_invariant]
    spec fn lists_usable(self) -> bool {
        &&& 0 < self.snis@.len() <= u32::MAX
        &&& 0 < self.paths@.len() <= u32::MAX
        &&& 0 < self.fingerprints@.len() <= u32::MAX
    }

    /// The server names a configuration picks from.
    pub closed spec fn sni_list(self) -> Seq<Seq<char>> {
        self.snis@.map_values(|s: &str| s@)
    }

    /// The WebSocket paths a configuration picks from.
    pub closed spec fn path_list(self) -> Seq<Seq<char>> {
        self.paths@.map_values(|s: &str| s@)
    }

    /// The TLS fingerprints a configuration picks from.
    pub closed spec fn fingerprint_list(self) -> Seq<Seq<char>> {
        self.fingerprints@.map_values(|s: &str| s@)
    }

    /// Whether the picks are in range for a kind.
    pub open spec fn choices_valid(self, kind: ConfigKind, ch: RandomChoices) -> bool {
        &&& ch.sni < self.sni_list().len()
        &&& ch.fingerprint < self.fingerprint_list().len()
        &&& uses_path(kind) ==> ch.path < self.path_list().len()
        &&& uses_grpc(kind) ==> SERVICE_NUMBER_LOW <= ch.service_number < SERVICE_NUMBER_HIGH
    }

    /// The configuration of a kind for an address, port and UUID, with the given picks.
    pub open spec fn config_of(
        self,
        kind: ConfigKind,
        ip: Seq<char>,
        port: u16,
        uuid: Seq<char>,
        ch: RandomChoices,
    ) -> ProxyConfigView {
        let sni = self.sni_list()[ch.sni as int];
        ProxyConfigView {
            protocol: kind_protocol(kind),
            transmission: kind_transmission(kind),
            address: ip,
            port: port,
            uuid: uuid,
            sni: sni,
            host: if uses_grpc(kind) {
                Seq::empty()
            } else {
                sni
            },
            path: if uses_path(kind) {
                self.path_list()[ch.path as int]
            } else {
                Seq::empty()
            },
            alpn: if uses_grpc(kind) {
                "h2"@
            } else {
                "h2,http/1.1"@
            },
            fingerprint: self.fingerprint_list()[ch.fingerprint as int],
            service_name: if uses_grpc(kind) {
                service_prefix(kind) + decimal(ch.service_number as nat)
            } else {
                Seq::empty()
            },
        }
    }

    /// What a freshly generated configuration of a kind is: one with a random version 4
    /// UUID and with some picks in range.
    pub open spec fn is_generated(
        self,
        kind: ConfigKind,
        ip: Seq<char>,
        port: u16,
        c: ProxyConfigView,
    ) -> bool {
        &&& is_v4_uuid_text(c.uuid)
        &&& exists|ch: RandomChoices|
            #![trigger self.config_of(kind, ip, port, c.uuid, ch)]
            self.choices_valid(kind, ch) && c == self.config_of(kind, ip, port, c.uuid, ch)
    }

    /// Whether the lists are the built-in ones.
    pub open spec fn has_default_lists(self) -> bool {
        &&& self.sni_list() == seq![
            "www.speedtest.net"@,
            "www.google.com"@,
            "www.cloudflare.com"@,
            "discord.com"@,
            "www.microsoft.com"@,
            "www.apple.com"@,
            "www.amazon.com"@,
        ]
        &&& self.path_list() == seq!["/"@, "/ws"@, "/vless"@, "/vmess"@, "/trojan"@]
        &&& self.fingerprint_list() == seq!["chrome"@, "firefox"@, "safari"@, "edge"@, "random"@]
    }

    /// A generator with the built-in lists of server names, paths and fingerprints.
    pub fn new() -> (r: Self)
        ensures
            r.has_default_lists(),
    {
        let r = ConfigGenerator {
            snis: vec![
                "www.speedtest.net",
                "www.google.com",
                "www.cloudflare.com",
                "discord.com",
                "www.microsoft.com",
                "www.apple.com",
                "www.amazon.com",
            ],
            paths: vec!["/", "/ws", "/vless", "/vmess", "/trojan"],
            fingerprints: vec!["chrome", "firefox", "safari", "edge", "random"],
        };
        assert(r.sni_list() =~= seq![
            "www.speedtest.net"@,
            "www.google.com"@,
            "www.cloudflare.com"@,
            "discord.com"@,
            "www.microsoft.com"@,
            "www.apple.com"@,
            "www.amazon.com"@,
        ]);
        assert(r.path_list() =~= seq!["/"@, "/ws"@, "/vless"@, "/vmess"@, "/trojan"@]);
        assert(r.fingerprint_list() =~= seq![
            "chrome"@,
            "firefox"@,
            "safari"@,
            "edge"@,
            "random"@,
        ]);
        r
    }

    /// Builds the configuration of a kind from its picks and its UUID.
    pub fn assemble_config(
        &self,
        kind: ConfigKind,
        ip: &str,
        port: u16,
        uuid: String,
        ch: RandomChoices,
    ) -> (r: ProxyConfig)
        requires
            self.choices_valid(kind, ch),
        ensures
            r@ == self.config_of(kind, ip@, port, uuid@, ch),
    {
        let grpc = match kind {
            ConfigKind::VlessGrpc | ConfigKind::TrojanGrpc => true,
            _ => false,
        };
        let ws = match kind {
            ConfigKind::VlessWs | ConfigKind::VmessWs | ConfigKind::TrojanWs => true,
            _ => false,
        };
        let sni_name: &str = self.snis[ch.sni];
        assert(sni_name@ == self.sni_list()[ch.sni as int]);
        let host = if grpc {
            String::new()
        } else {
            sni_name.to_owned()
        };
        let path = if ws {
            let p: &str = self.paths[ch.path];
            assert(p@ == self.path_list()[ch.path as int]);
            p.to_owned()
        } else {
            String::new()
        };
        let alpn = if grpc {
            String::from_str("h2")
        } else {
            String::from_str("h2,http/1.1")
        };
        let fp: &str = self.fingerprints[ch.fingerprint];
        assert(fp@ == self.fingerprint_list()[ch.fingerprint as int]);
        let service_name = if grpc {
            let mut s = match kind {
                ConfigKind::VlessGrpc => String::from_str("vl"),
                _ => String::from_str("tr"),
            };
            push_decimal(&mut s, ch.service_number as u64);
            s
        } else {
            String::new()
        };
        let r = ProxyConfig {
            protocol: String::from_str(protocol_name(kind)),
            transmission: String::from_str(transmission_name(kind)),
            address: ip.to_owned(),
            port,
            uuid,
            sni: sni_name.to_owned(),
            host,
            path,
            alpn,
            fingerprint: fp.to_owned(),
            service_name,
        };
        assert(r@.service_name =~= self.config_of(kind, ip@, port, uuid@, ch).service_name);
        assert(r@.host =~= self.config_of(kind, ip@, port, uuid@, ch).host);
        assert(r@.path =~= self.config_of(kind, ip@, port, uuid@, ch).path);
        r
    }

    /// Draws a random index below `len`.
    fn draw_index(rng: &mut rand::rngs::ThreadRng, len: usize) -> (r: usize)
        requires
            0 < len <= u32::MAX,
        ensures
            r < len,
    {
        gen_range_u32(rng, 0, len as u32) as usize
    }

    /// Draws the picks of a kind (server name, path, fingerprint, service number), takes a fresh
    /// UUID, and builds the configuration.
    fn random_config(
        &self,
        kind: ConfigKind,
        ip: &str,
        port: u16,
        rng: &mut rand::rngs::ThreadRng,
    ) -> (r: ProxyConfig)
        ensures
            self.is_generated(kind, ip@, port, r@),
    {
        proof {
            use_type_invariant(self);
        }
        let sni = Self::draw_index(rng, self.snis.len());
        let uuid = new_v4_uuid();
        let ws = match kind {
            ConfigKind::VlessWs | ConfigKind::VmessWs | ConfigKind::TrojanWs => true,
            _ => false,
        };
        let grpc = match kind {
            ConfigKind::VlessGrpc | ConfigKind::TrojanGrpc => true,
            _ => false,
        };
        let path = if ws {
            Self::draw_index(rng, self.paths.len())
        } else {
            0
        };
        let fingerprint = Self::draw_index(rng, self.fingerprints.len());
        let service_number = if grpc {
            gen_range_u32(rng, SERVICE_NUMBER_LOW, SERVICE_NUMBER_HIGH)
        } else {
            0
        };
        let ch = RandomChoices { sni, path, fingerprint, service_number };
        let r = self.assemble_config(kind, ip, port, uuid, ch);
        assert(self.choices_valid(kind, ch) && r@ == self.config_of(kind, ip@, port, r@.uuid, ch));
        r
    }

    /// VLESS over WebSocket with TLS.
    fn vless_ws(&self, ip: &str, port: u16, rng: &mut rand::rngs::ThreadRng) -> (r: ProxyConfig)
        ensures
            self.is_generated(ConfigKind::VlessWs, ip@, port, r@),
    {
        self.random_config(ConfigKind::VlessWs, ip, port, rng)
    }

    /// VLESS over TCP with TLS.
    fn vless_tcp(&self, ip: &str, port: u16, rng: &mut rand::rngs::ThreadRng) -> (r: ProxyConfig)
        ensures
            self.is_generated(ConfigKind::VlessTcp, ip@, port, r@),
    {
        self.random_config(ConfigKind::VlessTcp, ip, port, rng)
    }

    /// VLESS over gRPC with TLS.
    fn vless_grpc(&self, ip: &str, port: u16, rng: &mut rand::rngs::ThreadRng) -> (r: ProxyConfig)
        ensures
            self.is_generated(ConfigKind::VlessGrpc, ip@, port, r@),
    {
        self.random_config(ConfigKind::VlessGrpc, ip, port, rng)
    }

    /// VMess over WebSocket with TLS.
    fn vmess_ws(&self, ip: &str, port: u16, rng: &mut rand::rngs::ThreadRng) -> (r: ProxyConfig)
        ensures
            self.is_generated(ConfigKind::VmessWs, ip@, port, r@),
    {
        self.random_config(ConfigKind::VmessWs, ip, port, rng)
    }

    /// Trojan over WebSocket with TLS.
    fn trojan_ws(&self, ip: &str, port: u16, rng: &mut rand::rngs::ThreadRng) -> (r: ProxyConfig)
        ensures
            self.is_generated(ConfigKind::TrojanWs, ip@, port, r@),
    {
        self.random_config(ConfigKind::TrojanWs, ip, port, rng)
    }

    /// Trojan over gRPC with TLS.
    fn trojan_grpc(&self, ip: &str, port: u16, rng: &mut rand::rngs::ThreadRng) -> (r: ProxyConfig)
        ensures
            self.is_generated(ConfigKind::TrojanGrpc, ip@, port, r@),
    {
        self.random_config(ConfigKind::TrojanGrpc, ip, port, rng)
    }

    /// All six configurations for one address, in the order of `kind_at`.
    pub fn generate_all_configs(&self, ip: &str, port: u16) -> (r: Vec<ProxyConfig>)
        ensures
            r@.len() == 6,
            forall|i: int| 0 <= i < 6 ==> self.is_generated(kind_at(i), ip@, port, #[trigger] r@[i]@),
    {
        let mut rng = thread_rng();
        let mut configs: Vec<ProxyConfig> = Vec::new();
        configs.push(self.vless_ws(ip, port, &mut rng));
        configs.push(self.vless_tcp(ip, port, &mut rng));
        configs.push(self.vless_grpc(ip, port, &mut rng));
        configs.push(self.vmess_ws(ip, port, &mut rng));
        configs.push(self.trojan_ws(ip, port, &mut rng));
        configs.push(self.trojan_grpc(ip, port, &mut rng));
        configs
    }
}

// ---------------------------------------------------------------------------
// Share links
// ---------------------------------------------------------------------------

/// Percent-encoded UTF-8 of a text, as it stands in a link.
pub open spec fn url_text(s: Seq<char>) -> Seq<char> {
    percent_encoded(encode_utf8(s))
}

/// `ps` with `item` appended when `value` is not empty.
pub open spec fn push_if(ps: Seq<Seq<char>>, value: Seq<char>, item: Seq<char>) -> Seq<Seq<char>> {
    if value.len() > 0 {
        ps.push(item)
    } else {
        ps
    }
}

/// The query parameters of a VLESS or Trojan link, in order; `encryption` adds
/// `encryption=none` (VLESS only). Empty fields give no parameter.
pub open spec fn link_params(c: ProxyConfigView, encryption: bool) -> Seq<Seq<char>> {
    let base = seq!["type="@ + c.transmission, "security=tls"@];
    let p0 = if encryption {
        base.push("encryption=none"@)
    } else {
        base
    };
    let p1 = push_if(p0, c.sni, "sni="@ + c.sni);
    let p2 = push_if(p1, c.host, "host="@ + c.host);
    let p3 = push_if(p2, c.path, "path="@ + url_text(c.path));
    let p4 = push_if(p3, c.alpn, "alpn="@ + url_text(c.alpn));
    let p5 = push_if(p4, c.fingerprint, "fp="@ + c.fingerprint);
    push_if(p5, c.service_name, "serviceName="@ + c.service_name)
}

/// The display name of a link: label, upper-cased transport and address, joined by `-`.
pub open spec fn link_name(c: ProxyConfigView, label: Seq<char>) -> Seq<char> {
    label + "-"@ + uppercased(c.transmission) + "-"@ + c.address
}

/// What follows the scheme in a VLESS or Trojan share link:
/// `uuid@address:port?params#name`, with the name percent-encoded.
#[verifier::opaque]
pub open spec fn share_link_rest(c: ProxyConfigView, label: Seq<char>, encryption: bool) -> Seq<
    char,
> {
    c.uuid + "@"@ + c.address + ":"@ + decimal(c.port as nat) + "?"@ + joined(
        link_params(c, encryption),
        "&"@,
    ) + "#"@ + url_text(link_name(c, label))
}

/// A VLESS or Trojan share link: the scheme, then `share_link_rest`.
pub open spec fn share_link_text(
    c: ProxyConfigView,
    scheme: Seq<char>,
    label: Seq<char>,
    encryption: bool,
) -> Seq<char> {
    scheme + share_link_rest(c, label, encryption)
}

/// One `"key":"value"` member of a JSON object.
pub open spec fn json_member_text(key: Seq<char>, value: Seq<char>) -> Seq<char> {
    json_string(key) + ":"@ + json_string(value)
}

/// The members of the VMess JSON object, in the ascending key order in which
/// `serde_json` writes an object.
pub open spec fn vmess_members(c: ProxyConfigView) -> Seq<Seq<char>> {
    seq![
        json_member_text("add"@, c.address),
        json_member_text("aid"@, "0"@),
        json_member_text("alpn"@, c.alpn),
        json_member_text("fp"@, c.fingerprint),
        json_member_text("host"@, c.host),
        json_member_text("id"@, c.uuid),
        json_member_text("net"@, c.transmission),
        json_member_text("path"@, c.path),
        json_member_text("port"@, decimal(c.port as nat)),
        json_member_text("ps"@, link_name(c, "VMess"@)),
        json_member_text("scy"@, "auto"@),
        json_member_text("sni"@, c.sni),
        json_member_text("tls"@, "tls"@),
        json_member_text("type"@, "none"@),
        json_member_text("v"@, "2"@),
    ]
}

/// The compact JSON object that a VMess link carries.
pub open spec fn vmess_json(c: ProxyConfigView) -> Seq<char> {
    "{"@ + joined(vmess_members(c), ","@) + "}"@
}

/// The greatest byte length of a text that is base64-encoded into a link.
pub open spec fn encodable_len(n: nat) -> bool {
    n <= usize::MAX / 2
}

/// The payload of a VMess share link: the base64 of the UTF-8 bytes of the JSON
/// object. A JSON text longer than half the address space, which the encoder could not
/// size, gives an empty payload.
#[verifier::opaque]
pub open spec fn vmess_payload(c: ProxyConfigView) -> Seq<char> {
    let bytes = encode_utf8(vmess_json(c));
    if encodable_len(bytes.len()) {
        base64_standard(bytes)
    } else {
        Seq::empty()
    }
}

/// A VMess share link: `vmess://` and its payload.
pub open spec fn vmess_link_text(c: ProxyConfigView) -> Seq<char> {
    "vmess://"@ + vmess_payload(c)
}

/// The share link of a configuration, chosen by its protocol; empty for an unknown one.
pub open spec fn link_of(c: ProxyConfigView) -> Seq<char> {
    if c.protocol == "vless"@ {
        share_link_text(c, "vless://"@, "VLESS"@, true)
    } else if c.protocol == "vmess"@ {
        vmess_link_text(c)
    } else if c.protocol == "trojan"@ {
        share_link_text(c, "trojan://"@, "Trojan"@, false)
    } else {
        Seq::empty()
    }
}

/// A byte length within `encodable_len` fits the base64 encoder.
pub proof fn lemma_encodable_fits(n: nat)
    requires
        encodable_len(n),
    ensures
        base64_fits(n),
{
    let m = usize::MAX as int;
    let q = (n + 2) / 3;
    assert(q * 3 <= n + 2);
    assert(2 * (m / 2) <= m);
    assert(m >= 8);
    assert(q * 12 <= 3 * m);
    assert(q * 4 <= m);
}

/// `key` followed by `value`.
fn keyed(key: &str, value: &str) -> (r: String)
    ensures
        r@ == key@ + value@,
{
    let mut r = String::from_str(key);
    push_str(&mut r, value);
    r
}

/// Appends a string to a list of strings.
fn push_string(v: &mut Vec<String>, s: String)
    ensures
        string_views(final(v)@) == string_views(old(v)@).push(s@),
{
    let ghost before = string_views(v@);
    v.push(s);
    assert(string_views(v@) =~= before.push(s@));
}

/// Appends `key` and `value` when `value` is not empty.
fn push_param_if(v: &mut Vec<String>, value: &str, key: &str, item_value: &str)
    ensures
        string_views(final(v)@) == push_if(string_views(old(v)@), value@, key@ + item_value@),
{
    if !value.is_empty() {
        push_string(v, keyed(key, item_value));
    }
}

/// The query parameters of a VLESS or Trojan link.
fn link_param_list(c: &ProxyConfig, encryption: bool) -> (r: Vec<String>)
    ensures
        string_views(r@) == link_params(c@, encryption),
{
    let mut params: Vec<String> = Vec::new();
    push_string(&mut params, keyed("type=", c.transmission.as_str()));
    push_string(&mut params, String::from_str("security=tls"));
    assert(string_views(params@) =~= seq!["type="@ + c@.transmission, "security=tls"@]);
    if encryption {
        push_string(&mut params, String::from_str("encryption=none"));
    }
    push_param_if(&mut params, c.sni.as_str(), "sni=", c.sni.as_str());
    push_param_if(&mut params, c.host.as_str(), "host=", c.host.as_str());
    let path = url_encode(c.path.as_str());
    push_param_if(&mut params, c.path.as_str(), "path=", path.as_str());
    let alpn = url_encode(c.alpn.as_str());
    push_param_if(&mut params, c.alpn.as_str(), "alpn=", alpn.as_str());
    push_param_if(&mut params, c.fingerprint.as_str(), "fp=", c.fingerprint.as_str());
    push_param_if(&mut params, c.service_name.as_str(), "serviceName=", c.service_name.as_str());
    params
}

/// The display name of a link.
fn link_name_string(c: &ProxyConfig, label: &str) -> (r: String)
    ensures
        r@ == link_name(c@, label@),
{
    let mut name = String::from_str(label);
    push_str(&mut name, "-");
    let upper = to_uppercase(c.transmission.as_str());
    push_str(&mut name, upper.as_str());
    push_str(&mut name, "-");
    push_str(&mut name, c.address.as_str());
    name
}

/// A VLESS or Trojan share link.
fn share_link(c: &ProxyConfig, scheme: &str, label: &str, encryption: bool) -> (r: String)
    ensures
        r@ == share_link_text(c@, scheme@, label@, encryption),
{
    proof {
        reveal(share_link_rest);
    }
    let params = link_param_list(c, encryption);
    let query = join_strings(&params, "&");
    let name = link_name_string(c, label);
    let name_text = url_encode(name.as_str());
    let mut link = String::from_str(scheme);
    push_str(&mut link, c.uuid.as_str());
    push_str(&mut link, "@");
    push_str(&mut link, c.address.as_str());
    push_str(&mut link, ":");
    push_decimal(&mut link, c.port as u64);
    push_str(&mut link, "?");
    push_str(&mut link, query.as_str());
    push_str(&mut link, "#");
    push_str(&mut link, name_text.as_str());
    link
}

/// One JSON object member.
fn json_member(key: &str, value: &str) -> (r: String)
    ensures
        r@ == json_member_text(key@, value@),
{
    let mut r = json_quote(key);
    push_str(&mut r, ":");
    let v = json_quote(value);
    push_str(&mut r, v.as_str());
    r
}

/// The JSON object of a VMess link.
fn vmess_json_string(c: &ProxyConfig) -> (r: String)
    ensures
        r@ == vmess_json(c@),
{
    let port = crate::text::decimal_string(c.port as u64);
    let name = link_name_string(c, "VMess");
    let mut m: Vec<String> = Vec::new();
    push_string(&mut m, json_member("add", c.address.as_str()));
    push_string(&mut m, json_member("aid", "0"));
    push_string(&mut m, json_member("alpn", c.alpn.as_str()));
    push_string(&mut m, json_member("fp", c.fingerprint.as_str()));
    push_string(&mut m, json_member("host", c.host.as_str()));
    push_string(&mut m, json_member("id", c.uuid.as_str()));
    push_string(&mut m, json_member("net", c.transmission.as_str()));
    push_string(&mut m, json_member("path", c.path.as_str()));
    push_string(&mut m, json_member("port", port.as_str()));
    push_string(&mut m, json_member("ps", name.as_str()));
    push_string(&mut m, json_member("scy", "auto"));
    push_string(&mut m, json_member("sni", c.sni.as_str()));
    push_string(&mut m, json_member("tls", "tls"));
    push_string(&mut m, json_member("type", "none"));
    push_string(&mut m, json_member("v", "2"));
    assert(string_views(m@) =~= vmess_members(c@));
    let body = join_strings(&m, ",");
    let mut r = String::from_str("{");
    push_str(&mut r, body.as_str());
    push_str(&mut r, "}");
    r
}

impl ConfigGenerator {
    /// The share link of a configuration: `vless://`, `vmess://` or `trojan://` by its
    /// protocol, and an empty string for any other protocol.
    pub fn to_link(&self, c: &ProxyConfig) -> (r: String)
        ensures
            r@ == link_of(c@),
    {
        if c.protocol == String::from_str("vless") {
            self.vless_link(c)
        } else if c.protocol == String::from_str("vmess") {
            self.vmess_link(c)
        } else if c.protocol == String::from_str("trojan") {
            self.trojan_link(c)
        } else {
            String::new()
        }
    }

    fn vless_link(&self, c: &ProxyConfig) -> (r: String)
        ensures
            r@ == share_link_text(c@, "vless://"@, "VLESS"@, true),
    {
        share_link(c, "vless://", "VLESS", true)
    }

    fn vmess_link(&self, c: &ProxyConfig) -> (r: String)
        ensures
            r@ == vmess_link_text(c@),
    {
        proof {
            reveal(vmess_payload);
        }
        let json = vmess_json_string(c);
        let bytes = json.as_str().as_bytes();
        let mut link = String::from_str("vmess://");
        if bytes.len() <= usize::MAX / 2 {
            proof {
                lemma_encodable_fits(bytes@.len());
            }
            let encoded = base64_encode(bytes);
            push_str(&mut link, encoded.as_str());
        } else {
            assert(link@ =~= "vmess://"@ + Seq::<char>::empty());
        }
        link
    }

    fn trojan_link(&self, c: &ProxyConfig) -> (r: String)
        ensures
            r@ == share_link_text(c@, "trojan://"@, "Trojan"@, false),
    {
        share_link(c, "trojan://", "Trojan", false)
    }
}

// ---------------------------------------------------------------------------
// Laws
// ---------------------------------------------------------------------------

/// The link scheme of a protocol kind.
pub open spec fn kind_scheme(kind: ConfigKind) -> Seq<char> {
    match kind {
        ConfigKind::VlessWs | ConfigKind::VlessTcp | ConfigKind::VlessGrpc => "vless://"@,
        ConfigKind::VmessWs => "vmess://"@,
        ConfigKind::TrojanWs | ConfigKind::TrojanGrpc => "trojan://"@,
    }
}

/// A link begins with the scheme of its configuration's protocol, and a configuration
/// of any other protocol has no link.
pub proof fn lemma_link_scheme(c: ProxyConfigView)
    ensures
        c.protocol == "vless"@ ==> "vless://"@.is_prefix_of(link_of(c)),
        c.protocol == "vmess"@ ==> "vmess://"@.is_prefix_of(link_of(c)),
        c.protocol == "trojan"@ ==> "trojan://"@.is_prefix_of(link_of(c)),
        c.protocol != "vless"@ && c.protocol != "vmess"@ && c.protocol != "trojan"@ ==> link_of(
            c,
        ).len() == 0,
{
    reveal_strlit("vless");
    reveal_strlit("vmess");
    reveal_strlit("trojan");
    reveal_strlit("vless://");
    reveal_strlit("vmess://");
    reveal_strlit("trojan://");
    assert("vless"@ != "vmess"@) by {
        assert("vless"@[1] != "vmess"@[1]);
    }
    assert("vless"@.len() != "trojan"@.len());
    assert("vmess"@.len() != "trojan"@.len());
    let l = link_of(c);
    if c.protocol == "vless"@ {
        let rest = share_link_rest(c, "VLESS"@, true);
        assert(l == "vless://"@ + rest);
        assert(l.take("vless://"@.len() as int) =~= "vless://"@);
    } else if c.protocol == "vmess"@ {
        assert(l == "vmess://"@ + vmess_payload(c));
        assert(l.take("vmess://"@.len() as int) =~= "vmess://"@);
    } else if c.protocol == "trojan"@ {
        let rest = share_link_rest(c, "Trojan"@, false);
        assert(l == "trojan://"@ + rest);
        assert(l.take("trojan://"@.len() as int) =~= "trojan://"@);
    }
}

/// Every generated configuration has a link, which begins with the scheme of its kind.
pub proof fn lemma_generated_link_scheme(
    g: ConfigGenerator,
    kind: ConfigKind,
    ip: Seq<char>,
    port: u16,
    c: ProxyConfigView,
)
    requires
        g.is_generated(kind, ip, port, c),
    ensures
        kind_scheme(kind).is_prefix_of(link_of(c)),
        link_of(c).len() > 0,
{
    let ch = choose|ch: RandomChoices|
        #![trigger g.config_of(kind, ip, port, c.uuid, ch)]
        g.choices_valid(kind, ch) && c == g.config_of(kind, ip, port, c.uuid, ch);
    assert(c.protocol == kind_protocol(kind));
    reveal_strlit("vless");
    reveal_strlit("vmess");
    reveal_strlit("trojan");
    reveal_strlit("vless://");
    reveal_strlit("vmess://");
    reveal_strlit("trojan://");
    lemma_link_scheme(c);
    assert(kind_scheme(kind).len() > 0);
}

/// Inserting at index 2 commutes with conditionally appending.
proof fn lemma_push_if_insert(
    x: Seq<Seq<char>>,
    value: Seq<char>,
    item: Seq<char>,
    e: Seq<char>,
)
    requires
        x.len() >= 2,
    ensures
        push_if(x.insert(2, e), value, item) == push_if(x, value, item).insert(2, e),
{
    if value.len() > 0 {
        assert(x.insert(2, e).push(item) =~= x.push(item).insert(2, e));
    }
}

/// A Trojan link is the VLESS link of the same configuration with the scheme
/// `trojan://` in place of `vless://`, without the third parameter
/// `encryption=none`, and with the name starting `Trojan` in place of `VLESS`; every
/// other parameter, their order and their encoding are the same.
#[verifier::spinoff_prover]
#[verifier::rlimit(40)]
pub proof fn lemma_trojan_link_from_vless(c: ProxyConfigView)
    ensures
        link_params(c, true)[2] == "encryption=none"@,
        link_params(c, false) == link_params(c, true).remove(2),
        link_name(c, "Trojan"@) == "Trojan"@ + link_name(c, "VLESS"@).skip(
            "VLESS"@.len() as int,
        ),
        share_link_text(c, "vless://"@, "VLESS"@, true) == "vless://"@ + c.uuid + "@"@
            + c.address + ":"@ + decimal(c.port as nat) + "?"@ + joined(
            link_params(c, true),
            "&"@,
        ) + "#"@ + url_text(link_name(c, "VLESS"@)),
        share_link_text(c, "trojan://"@, "Trojan"@, false) == "trojan://"@ + c.uuid + "@"@
            + c.address + ":"@ + decimal(c.port as nat) + "?"@ + joined(
            link_params(c, true).remove(2),
            "&"@,
        ) + "#"@ + url_text("Trojan"@ + link_name(c, "VLESS"@).skip("VLESS"@.len() as int)),
{
    reveal(share_link_rest);
    let e = "encryption=none"@;
    let base = seq!["type="@ + c.transmission, "security=tls"@];
    let t0 = base.push(e);
    assert(t0 =~= base.insert(2, e));
    lemma_push_if_insert(base, c.sni, "sni="@ + c.sni, e);
    let f1 = push_if(base, c.sni, "sni="@ + c.sni);
    lemma_push_if_insert(f1, c.host, "host="@ + c.host, e);
    let f2 = push_if(f1, c.host, "host="@ + c.host);
    lemma_push_if_insert(f2, c.path, "path="@ + url_text(c.path), e);
    let f3 = push_if(f2, c.path, "path="@ + url_text(c.path));
    lemma_push_if_insert(f3, c.alpn, "alpn="@ + url_text(c.alpn), e);
    let f4 = push_if(f3, c.alpn, "alpn="@ + url_text(c.alpn));
    lemma_push_if_insert(f4, c.fingerprint, "fp="@ + c.fingerprint, e);
    let f5 = push_if(f4, c.fingerprint, "fp="@ + c.fingerprint);
    lemma_push_if_insert(f5, c.service_name, "serviceName="@ + c.service_name, e);
    let f6 = push_if(f5, c.service_name, "serviceName="@ + c.service_name);
    assert(link_params(c, false) == f6);
    assert(link_params(c, true) == f6.insert(2, e));
    assert(f6.insert(2, e).remove(2) =~= f6);
    assert(f6.insert(2, e)[2] == e);
    let tail = "-"@ + uppercased(c.transmission) + "-"@ + c.address;
    assert(link_name(c, "VLESS"@) =~= "VLESS"@ + tail);
    assert(link_name(c, "Trojan"@) =~= "Trojan"@ + tail);
    assert(("VLESS"@ + tail).skip("VLESS"@.len() as int) =~= tail);
}

/// The payload of a VMess link decodes (as base64, then as UTF-8) back to the link's
/// JSON object text.
pub proof fn lemma_vmess_payload_decodes(c: ProxyConfigView)
    requires
        encodable_len(encode_utf8(vmess_json(c)).len()),
    ensures
        base64_decoded(vmess_payload(c)) == Some(encode_utf8(vmess_json(c))),
        decode_utf8(encode_utf8(vmess_json(c))) == vmess_json(c),
        link_of(c) == "vmess://"@ + vmess_payload(c) <== c.protocol == "vmess"@,
{
    reveal(vmess_payload);
    lemma_base64_round_trip(encode_utf8(vmess_json(c)));
    encode_utf8_decode_utf8(vmess_json(c));
    reveal_strlit("vless");
    reveal_strlit("vmess");
    assert("vless"@ != "vmess"@) by {
        assert("vless"@[1] != "vmess"@[1]);
    }
}

/// Text with no quote, backslash or control character stands in JSON as it is.
proof fn lemma_json_plain(s: Seq<char>)
    requires
        forall|i: int|
            0 <= i < s.len() ==> #[trigger] s[i] != '"' && s[i] != '\\' && (s[i] as u32) >= 32,
    ensures
        json_escaped(s) == s,
    decreases s.len(),
{
    if s.len() > 0 {
        lemma_json_plain(s.drop_last());
        assert(s.drop_last().push(s.last()) =~= s);
        assert(s[s.len() - 1] == s.last());
    }
}

/// Decimal text stands in JSON as it is.
proof fn lemma_json_decimal(n: nat)
    ensures
        json_escaped(decimal(n)) == decimal(n),
{
    lemma_decimal_value(n);
    assert forall|i: int| 0 <= i < decimal(n).len() implies #[trigger] decimal(n)[i] != '"'
        && decimal(n)[i] != '\\' && (decimal(n)[i] as u32) >= 32 by {
        assert(is_digit(decimal(n)[i]));
    }
    lemma_json_plain(decimal(n));
}

/// The JSON object of a VMess link names the configuration's own endpoint: its `port`
/// member is the decimal port, its `add` member the address and its `id` member the
/// UUID. The link's payload decodes back to that object.
pub proof fn lemma_vmess_json_endpoint(c: ProxyConfigView)
    ensures
        contains_text(vmess_json(c), "\"port\":\""@ + decimal(c.port as nat) + "\""@),
        contains_text(vmess_json(c), "\"add\":"@ + json_string(c.address)),
        contains_text(vmess_json(c), "\"id\":"@ + json_string(c.uuid)),
        c.protocol == "vmess"@ && encodable_len(encode_utf8(vmess_json(c)).len()) ==> base64_decoded(
            link_of(c).skip("vmess://"@.len() as int),
        ) == Some(encode_utf8(vmess_json(c))),
{
    reveal_strlit("port");
    reveal_strlit("add");
    reveal_strlit("id");
    reveal_strlit("\"port\":\"");
    reveal_strlit("\"");
    reveal_strlit("\"add\":");
    reveal_strlit("\"id\":");
    reveal_strlit(":");
    let ms = vmess_members(c);
    let body = joined(ms, ","@);
    let j = vmess_json(c);
    assert(j == "{"@ + body + "}"@);
    reveal_strlit("{");
    lemma_json_plain("port"@);
    lemma_json_plain("add"@);
    lemma_json_plain("id"@);
    lemma_json_decimal(c.port as nat);
    let port_text = "\"port\":\""@ + decimal(c.port as nat) + "\""@;
    let add_text = "\"add\":"@ + json_string(c.address);
    let id_text = "\"id\":"@ + json_string(c.uuid);
    assert(ms[8] =~= port_text);
    assert(ms[0] =~= add_text);
    assert(ms[5] =~= id_text);
    let k8 = lemma_joined_contains(ms, ","@, 8);
    let k0 = lemma_joined_contains(ms, ","@, 0);
    let k5 = lemma_joined_contains(ms, ","@, 5);
    assert(j.subrange(k8 + 1, k8 + 1 + port_text.len()) =~= body.subrange(k8, k8 + port_text.len()));
    assert(occurs_at(j, port_text, k8 + 1));
    assert(j.subrange(k0 + 1, k0 + 1 + add_text.len()) =~= body.subrange(k0, k0 + add_text.len()));
    assert(occurs_at(j, add_text, k0 + 1));
    assert(j.subrange(k5 + 1, k5 + 1 + id_text.len()) =~= body.subrange(k5, k5 + id_text.len()));
    assert(occurs_at(j, id_text, k5 + 1));
    if c.protocol == "vmess"@ && encodable_len(encode_utf8(vmess_json(c)).len()) {
        lemma_vmess_payload_decodes(c);
        reveal_strlit("vmess://");
        assert(link_of(c).skip("vmess://"@.len() as int) =~= vmess_payload(c));
    }
}

} // verus!
