use base64::Engine;
use config_generator::generator::ProxyConfig;
use config_generator::output::{ConfigOutput, OutputGenerator, QrCodeError, SubscriptionManager};
use config_generator::tester::{ConfigTester, ProbeOutcome, TestResult, TestStatistics};

fn config(protocol: &str, address: &str) -> ProxyConfig {
    ProxyConfig {
        protocol: protocol.to_string(),
        transmission: "tcp".to_string(),
        address: address.to_string(),
        port: 443,
        uuid: "id".to_string(),
        sni: "s".to_string(),
        host: "".to_string(),
        path: "".to_string(),
        alpn: "".to_string(),
        fingerprint: "".to_string(),
        service_name: "".to_string(),
    }
}

fn result(protocol: &str, working: bool, ms: Option<u64>) -> TestResult {
    TestResult { config: config(protocol, "1.2.3.4"), is_working: working, response_time_ms: ms, error: None }
}

#[test]
fn statistics_of_results() {
    let rs = vec![
        result("vless", true, Some(30)),
        result("vless", false, Some(5)),
        result("vless", true, Some(10)),
        result("vless", true, None),
        result("vless", false, None),
    ];
    let st = TestStatistics::from_results(&rs);
    assert_eq!(st.total_configs, 5);
    assert_eq!(st.working_configs, 3);
    assert_eq!(st.failed_configs, 2);
    assert_eq!(st.fastest_response_time_ms, Some(10));
    assert_eq!(st.slowest_response_time_ms, Some(30));
    assert_eq!(st.total_response_time_ms, 40);
    assert_eq!(st.timed_configs, 2);
}

#[test]
fn statistics_of_no_results() {
    let st = TestStatistics::from_results(&[]);
    let d = TestStatistics::default();
    assert_eq!(st.total_configs, d.total_configs);
    assert_eq!(st.working_configs, 0);
    assert_eq!(st.fastest_response_time_ms, None);
    assert_eq!(st.slowest_response_time_ms, None);
    assert_eq!(st.timed_configs, 0);
}

#[test]
fn output_keeps_working_results_only() {
    let og = OutputGenerator::new();
    let rs = vec![
        result("trojan", true, Some(12)),
        result("vless", false, None),
        result("vless", true, Some(3)),
    ];
    let b = og.build_output(&rs, "2024-01-01T00:00:00+00:00".to_string());
    assert_eq!(b.configs.len(), 2);
    assert_eq!(b.configs[0].protocol, "trojan");
    assert_eq!(b.configs[0].link, "trojan://id@1.2.3.4:443?type=tcp&security=tls&sni=s#Trojan-TCP-1.2.3.4");
    assert!(b.configs[0].is_tested && b.configs[0].is_working);
    assert_eq!(b.configs[0].response_time_ms, Some(12));
    assert_eq!(b.configs[1].protocol, "vless");
    assert_eq!(b.statistics.working_configs, 2);
    assert_eq!(b.generated_at, "2024-01-01T00:00:00+00:00");
    let decoded = base64::engine::general_purpose::STANDARD.decode(&b.subscription_link).unwrap();
    assert_eq!(String::from_utf8(decoded).unwrap(), format!("{}\n{}", b.configs[0].link, b.configs[1].link));
}

#[test]
fn subscription_base64_exact() {
    let og = OutputGenerator::new();
    // Unknown protocols have empty links: the subscription text is a single "\n".
    let rs = vec![result("other", true, None), result("other", true, None)];
    let b = og.build_output(&rs, String::new());
    assert_eq!(b.subscription_link, "Cg==");
    let empty = og.build_output(&vec![], String::new());
    assert_eq!(empty.subscription_link, "");
    assert!(empty.configs.is_empty());
}

#[test]
fn generate_output_stamps_time() {
    let og = OutputGenerator::new();
    let b = og.generate_output(vec![result("vless", true, Some(1))]);
    assert_eq!(b.configs.len(), 1);
    assert!(b.generated_at.contains('T'));
}

#[test]
fn files_text() {
    let og = OutputGenerator::new();
    let rs = vec![result("trojan", true, Some(12)), result("vless", true, None), result("trojan", true, Some(7))];
    let b = og.build_output(&rs, String::new());
    let all = b.links_text();
    assert_eq!(all, format!("{}\n\n{}\n\n{}", b.configs[0].link, b.configs[1].link, b.configs[2].link));
    assert_eq!(b.protocol_links_text("trojan"), Some(format!("{}\n\n{}", b.configs[0].link, b.configs[2].link)));
    assert_eq!(b.protocol_links_text("Trojan"), None);
    assert_eq!(
        b.report_section("trojan"),
        "### trojan Configs (2)\n\n1. **tcp** - trojan | 1.2.3.4:443 | ⚡ 12ms\n2. **tcp** - trojan | 1.2.3.4:443 | ⚡ 7ms\n\n"
    );
    assert_eq!(b.report_section("vless"), "### vless Configs (1)\n\n1. **tcp** - vless | 1.2.3.4:443 | ⚡ 0ms\n\n");
    assert_eq!(b.report_section("VLESS"), "");
}

#[test]
fn subscription_url() {
    let m = SubscriptionManager::new(Some("https://example.org".to_string()));
    assert_eq!(m.create_subscription_url("abc"), Some("https://example.org/subscription?data=abc".to_string()));
    let none = SubscriptionManager::new(None);
    assert_eq!(none.create_subscription_url("abc"), None);
}

#[test]
fn qr_codes() {
    let m = SubscriptionManager::new(None);
    let qr = m.create_qr_code("vless://x@1.2.3.4:443").unwrap();
    assert!(!qr.is_empty());
    assert!(qr.contains('\n'));
    let long = "x".repeat(5000);
    assert_eq!(m.create_qr_code(&long), Err(QrCodeError::DataTooLong));
    let c = ConfigOutput {
        link: "L".to_string(),
        protocol: "vless".to_string(),
        transmission: "ws".to_string(),
        address: "1.2.3.4".to_string(),
        port: 8443,
        is_tested: true,
        is_working: true,
        response_time_ms: None,
    };
    assert_eq!(m.qr_page_text(&c, "QR"), "Config: vless - ws\nAddress: 1.2.3.4:8443\n\nQR\n\nLink: L");
}

#[test]
fn probe_outcomes() {
    let r = ConfigTester::test_result(config("vless", "a"), ProbeOutcome::Reachable, 42);
    assert!(r.is_working);
    assert_eq!(r.response_time_ms, Some(42));
    assert_eq!(r.error, None);
    let r = ConfigTester::test_result(config("vless", "a"), ProbeOutcome::TlsFailed("bad cert".to_string()), 9);
    assert!(!r.is_working);
    assert_eq!(r.response_time_ms, Some(9));
    assert_eq!(r.error.as_deref(), Some("bad cert"));
    let r = ConfigTester::test_result(config("vless", "a"), ProbeOutcome::TcpFailed("refused".to_string()), 9);
    assert_eq!(r.response_time_ms, None);
    assert_eq!(r.error.as_deref(), Some("TCP: refused"));
    let r = ConfigTester::test_result(config("vless", "a"), ProbeOutcome::TimedOut, 9);
    assert_eq!(r.error.as_deref(), Some("Timeout"));
}

#[test]
fn tester_settings_and_batches() {
    let t = ConfigTester::new(10, 50);
    assert_eq!(t.timeout_secs(), 10);
    assert_eq!(t.concurrent(), 50);
    assert!(!t.batch_ready(49));
    assert!(t.batch_ready(50));
}

fn bundle_for_report() -> config_generator::output::OutputBundle {
    let og = OutputGenerator::new();
    let rs = vec![
        result("VLESS", true, Some(12)),
        result("trojan", true, None),
        result("VLESS", true, Some(30)),
        result("VLESS", false, None),
    ];
    og.build_output(&rs, "2024-05-01T10:00:00+00:00".to_string())
}

#[test]
fn statistics_text_matches_report_format() {
    let b = bundle_for_report();
    let expected = format!(
        "Configuration Test Statistics\n\
         ==============================\n\n\
         Generated at: {}\n\n\
         Total Configs Tested: {}\n\
         Working Configs: {}\n\
         Failed Configs: {}\n\
         Success Rate: {}%\n\n\
         Performance Metrics:\n\
         - Average Response Time: {} ms\n\
         - Fastest Response Time: {} ms\n\
         - Slowest Response Time: {} ms\n",
        b.generated_at, 4, 3, 1, "75.00", "21.00", "12", "30",
    );
    assert_eq!(b.statistics_text("75.00", "21.00"), expected);
    let empty = OutputGenerator::new().build_output(&vec![], "t".to_string());
    assert!(empty.statistics_text("0.00", "0.00").ends_with("- Fastest Response Time: N/A ms\n- Slowest Response Time: N/A ms\n"));
}

#[test]
fn markdown_report_matches_report_format() {
    let b = bundle_for_report();
    let mut m = String::new();
    m.push_str("# Proxy Configuration Report\n\n");
    m.push_str(&format!("**Generated:** {}\n\n", b.generated_at));
    m.push_str("## 📊 Statistics\n\n");
    m.push_str("- **Total Configs:** 4\n");
    m.push_str("- **Working:** 3 ✅\n");
    m.push_str("- **Failed:** 1 ❌\n");
    m.push_str("- **Success Rate:** 75.00%\n\n");
    m.push_str("## ⚡ Performance\n\n");
    m.push_str("- **Average Response:** 21.00 ms\n");
    m.push_str("- **Fastest:** 12 ms\n");
    m.push_str("- **Slowest:** 30 ms\n\n");
    m.push_str("## 🔗 Quick Access\n\n");
    m.push_str("### Subscription Link\n");
    m.push_str("```\n");
    m.push_str(&b.subscription_link);
    m.push_str("\n```\n\n");
    m.push_str("### Files Available\n\n");
    m.push_str("- `subscription.txt` - Base64 encoded subscription link\n");
    m.push_str("- `configs.json` - Complete configuration data in JSON format\n");
    m.push_str("- `config_links.txt` - All working config links\n");
    m.push_str("- `vless_configs.txt` - VLESS protocol configs\n");
    m.push_str("- `vmess_configs.txt` - VMess protocol configs\n");
    m.push_str("- `trojan_configs.txt` - Trojan protocol configs\n");
    m.push_str("- `statistics.txt` - Detailed statistics report\n\n");
    m.push_str("## 📋 Working Configurations\n\n");
    m.push_str("### VLESS Configs (2)\n\n");
    m.push_str("1. **tcp** - VLESS | 1.2.3.4:443 | ⚡ 12ms\n");
    m.push_str("2. **tcp** - VLESS | 1.2.3.4:443 | ⚡ 30ms\n");
    m.push_str("\n");
    m.push_str("---\n\n");
    m.push_str("*Generated by Advanced Proxy Config Generator*\n");
    assert_eq!(b.markdown_report("75.00", "21.00"), m);
}

#[test]
fn statistics_do_not_depend_on_order() {
    let rs = vec![
        result("vless", true, Some(30)),
        result("vless", false, Some(5)),
        result("vless", true, Some(10)),
        result("vless", true, None),
    ];
    let mut rev = rs.clone();
    rev.reverse();
    let a = TestStatistics::from_results(&rs);
    let b = TestStatistics::from_results(&rev);
    assert_eq!(a.working_configs, b.working_configs);
    assert_eq!(a.fastest_response_time_ms, b.fastest_response_time_ms);
    assert_eq!(a.slowest_response_time_ms, b.slowest_response_time_ms);
    assert_eq!(a.total_response_time_ms, b.total_response_time_ms);
    assert_eq!(a.timed_configs, b.timed_configs);
}

#[test]
fn generated_at_is_rfc3339_utc() {
    let b = OutputGenerator::new().generate_output(vec![]);
    let s: Vec<char> = b.generated_at.chars().collect();
    assert!(b.generated_at.ends_with("+00:00"));
    assert!([25usize, 29, 32, 35].contains(&s.len()), "{}", b.generated_at);
    assert_eq!((s[4], s[7], s[10], s[13], s[16]), ('-', '-', 'T', ':', ':'));
}
