use base64::Engine;
use config_generator::generator::{ConfigGenerator, ConfigKind, ProxyConfig, RandomChoices};

fn config(protocol: &str, transmission: &str, path: &str, alpn: &str, host: &str, service: &str) -> ProxyConfig {
    ProxyConfig {
        protocol: protocol.to_string(),
        transmission: transmission.to_string(),
        address: "1.2.3.4".to_string(),
        port: 443,
        uuid: "u-1".to_string(),
        sni: "www.google.com".to_string(),
        host: host.to_string(),
        path: path.to_string(),
        alpn: alpn.to_string(),
        fingerprint: "chrome".to_string(),
        service_name: service.to_string(),
    }
}

fn is_v4_uuid(s: &str) -> bool {
    let b: Vec<char> = s.chars().collect();
    b.len() == 36
        && b.iter().enumerate().all(|(i, c)| {
            if i == 8 || i == 13 || i == 18 || i == 23 {
                *c == '-'
            } else {
                c.is_ascii_digit() || ('a'..='f').contains(c)
            }
        })
        && b[14] == '4'
        && "89ab".contains(b[19])
}

#[test]
fn all_configs_for_one_address() {
    let g = ConfigGenerator::new();
    let snis = ["www.speedtest.net", "www.google.com", "www.cloudflare.com", "discord.com",
        "www.microsoft.com", "www.apple.com", "www.amazon.com"];
    let paths = ["/", "/ws", "/vless", "/vmess", "/trojan"];
    let fps = ["chrome", "firefox", "safari", "edge", "random"];
    let configs = g.generate_all_configs("9.9.9.9", 8443);
    assert_eq!(configs.len(), 6);
    let expected = [
        ("vless", "ws"), ("vless", "tcp"), ("vless", "grpc"),
        ("vmess", "ws"), ("trojan", "ws"), ("trojan", "grpc"),
    ];
    for (c, (p, t)) in configs.iter().zip(expected.iter()) {
        assert_eq!(c.protocol, *p);
        assert_eq!(c.transmission, *t);
        assert_eq!(c.address, "9.9.9.9");
        assert_eq!(c.port, 8443);
        assert!(is_v4_uuid(&c.uuid), "{}", c.uuid);
        assert!(snis.contains(&c.sni.as_str()));
        assert!(fps.contains(&c.fingerprint.as_str()));
        if *t == "grpc" {
            assert_eq!(c.host, "");
            assert_eq!(c.path, "");
            assert_eq!(c.alpn, "h2");
            let prefix = if *p == "vless" { "vl" } else { "tr" };
            assert!(c.service_name.starts_with(prefix));
            let n: u32 = c.service_name[2..].parse().unwrap();
            assert!((1000..9999).contains(&n));
        } else {
            assert_eq!(c.host, c.sni);
            assert_eq!(c.alpn, "h2,http/1.1");
            assert_eq!(c.service_name, "");
            if *t == "ws" {
                assert!(paths.contains(&c.path.as_str()));
            } else {
                assert_eq!(c.path, "");
            }
        }
    }
}

#[test]
fn uuids_differ_between_configs() {
    let g = ConfigGenerator::new();
    let configs = g.generate_all_configs("1.1.1.1", 443);
    for i in 0..configs.len() {
        for j in (i + 1)..configs.len() {
            assert_ne!(configs[i].uuid, configs[j].uuid);
        }
    }
}

#[test]
fn vless_link_exact() {
    let g = ConfigGenerator::new();
    let c = config("vless", "ws", "/ws", "h2,http/1.1", "www.google.com", "");
    assert_eq!(
        g.to_link(&c),
        "vless://u-1@1.2.3.4:443?type=ws&security=tls&encryption=none&sni=www.google.com\
         &host=www.google.com&path=%2Fws&alpn=h2%2Chttp%2F1.1&fp=chrome#VLESS-WS-1.2.3.4"
    );
}

#[test]
fn trojan_grpc_link_exact() {
    let g = ConfigGenerator::new();
    let c = config("trojan", "grpc", "", "h2", "", "tr1234");
    assert_eq!(
        g.to_link(&c),
        "trojan://u-1@1.2.3.4:443?type=grpc&security=tls&sni=www.google.com&alpn=h2\
         &fp=chrome&serviceName=tr1234#Trojan-GRPC-1.2.3.4"
    );
}

#[test]
fn link_name_and_path_are_percent_encoded() {
    let g = ConfigGenerator::new();
    let mut c = config("vless", "ws", "/a b/é", "h2", "", "");
    c.address = "host name".to_string();
    let link = g.to_link(&c);
    assert!(link.contains("path=%2Fa%20b%2F%C3%A9"), "{}", link);
    assert!(link.ends_with("#VLESS-WS-host%20name"), "{}", link);
}

#[test]
fn vmess_link_is_base64_of_sorted_json() {
    let g = ConfigGenerator::new();
    let c = config("vmess", "ws", "/vmess", "h2,http/1.1", "www.google.com", "");
    let mut m = serde_json::Map::new();
    let fields = [
        ("v", "2"), ("ps", "VMess-WS-1.2.3.4"), ("add", "1.2.3.4"), ("port", "443"),
        ("id", "u-1"), ("aid", "0"), ("scy", "auto"), ("net", "ws"), ("type", "none"),
        ("host", "www.google.com"), ("path", "/vmess"), ("tls", "tls"),
        ("sni", "www.google.com"), ("alpn", "h2,http/1.1"), ("fp", "chrome"),
    ];
    for (k, v) in fields.iter() {
        m.insert(k.to_string(), serde_json::Value::String(v.to_string()));
    }
    let json = serde_json::Value::Object(m).to_string();
    let expected = format!("vmess://{}", base64::engine::general_purpose::STANDARD.encode(json));
    assert_eq!(g.to_link(&c), expected);
}

#[test]
fn vmess_link_escapes_json_text() {
    let g = ConfigGenerator::new();
    let mut c = config("vmess", "ws", "/a\"b\\c\n", "h2", "", "");
    c.host = "tab\there\u{1}".to_string();
    let link = g.to_link(&c);
    let payload = base64::engine::general_purpose::STANDARD
        .decode(link.trim_start_matches("vmess://"))
        .unwrap();
    let v: serde_json::Value = serde_json::from_slice(&payload).unwrap();
    assert_eq!(v["path"], "/a\"b\\c\n");
    assert_eq!(v["host"], "tab\there\u{1}");
    assert_eq!(v["port"], "443");
}

#[test]
fn unknown_protocol_has_no_link() {
    let g = ConfigGenerator::new();
    let c = config("shadowsocks", "tcp", "", "", "", "");
    assert_eq!(g.to_link(&c), "");
}

#[test]
fn assemble_config_from_picks() {
    let g = ConfigGenerator::default();
    let ch = RandomChoices { sni: 3, path: 4, fingerprint: 2, service_number: 1234 };
    let c = g.assemble_config(ConfigKind::VlessGrpc, "5.6.7.8", 2053, "uid".to_string(), ch);
    assert_eq!(c.protocol, "vless");
    assert_eq!(c.transmission, "grpc");
    assert_eq!(c.address, "5.6.7.8");
    assert_eq!(c.port, 2053);
    assert_eq!(c.uuid, "uid");
    assert_eq!(c.sni, "discord.com");
    assert_eq!(c.host, "");
    assert_eq!(c.path, "");
    assert_eq!(c.alpn, "h2");
    assert_eq!(c.fingerprint, "safari");
    assert_eq!(c.service_name, "vl1234");

    let c = g.assemble_config(ConfigKind::TrojanWs, "5.6.7.8", 443, "uid".to_string(), ch);
    assert_eq!(c.protocol, "trojan");
    assert_eq!(c.transmission, "ws");
    assert_eq!(c.host, "discord.com");
    assert_eq!(c.path, "/trojan");
    assert_eq!(c.alpn, "h2,http/1.1");
    assert_eq!(c.service_name, "");
}

#[test]
fn generated_links_carry_their_scheme() {
    let g = ConfigGenerator::new();
    let schemes = ["vless://", "vless://", "vless://", "vmess://", "trojan://", "trojan://"];
    for (c, s) in g.generate_all_configs("1.2.3.4", 443).iter().zip(schemes.iter()) {
        let link = g.to_link(c);
        assert!(link.starts_with(s), "{}", link);
    }
}

#[test]
fn trojan_link_is_vless_link_without_encryption() {
    let g = ConfigGenerator::new();
    let v = config("vless", "grpc", "/p", "h2", "h", "svc");
    let mut t = v.clone();
    t.protocol = "trojan".to_string();
    let vl = g.to_link(&v);
    let expected = vl
        .replacen("vless://", "trojan://", 1)
        .replacen("&encryption=none", "", 1)
        .replacen("#VLESS-", "#Trojan-", 1);
    assert_eq!(g.to_link(&t), expected);
}
