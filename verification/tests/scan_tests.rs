use config_generator::scan::{extract_number_before, parse_proxy_line, parse_proxy_list, validate_ip};

#[test]
fn test_ip_validation() {
    assert!(validate_ip("192.168.1.1"));
    assert!(validate_ip("8.8.8.8"));
    assert!(!validate_ip("256.1.1.1"));
    assert!(!validate_ip("192.168.1"));
    assert!(!validate_ip("invalid"));
}

#[test]
fn test_proxy_parsing() {
    let line = "PROXY LIVE ✅: 167.114.67.25 (989 ms) - Beauharnois";
    let proxy = parse_proxy_line(line);

    assert!(proxy.is_some());
    let proxy = proxy.unwrap();
    assert_eq!(proxy.ip, "167.114.67.25");
    assert_eq!(proxy.port, 443);
    assert_eq!(proxy.response_time, 989);
    assert_eq!(proxy.location, "Beauharnois");
}

#[test]
fn test_proxy_parsing_variations() {
    let line1 = "PROXY LIVE: 155.138.128.135 (314 ms) - Toronto";
    let proxy1 = parse_proxy_line(line1);
    assert!(proxy1.is_some());
    assert_eq!(proxy1.unwrap().ip, "155.138.128.135");

    let line2 = "PROXY LIVE ✅:    167.114.67.25    (989 ms)  -  Beauharnois";
    let proxy2 = parse_proxy_line(line2);
    assert!(proxy2.is_some());
    assert_eq!(proxy2.unwrap().ip, "167.114.67.25");
}

#[test]
fn test_number_extraction() {
    assert_eq!(extract_number_before("test (123 ms) end", "ms)"), Some(123));
    assert_eq!(extract_number_before("test (4567 ms) end", "ms)"), Some(4567));
    assert_eq!(extract_number_before("no number here ms)", "ms)"), None);
}

#[test]
fn ip_validation_edge_cases() {
    assert!(validate_ip("0.0.0.0"));
    assert!(validate_ip("255.255.255.255"));
    assert!(validate_ip("+1.2.3.4"));
    assert!(validate_ip("01.002.3.4"));
    assert!(!validate_ip("1..2.3"));
    assert!(!validate_ip("1.2.3.4."));
    assert!(!validate_ip("1.2.3.4.5"));
    assert!(!validate_ip("1.2.3.-4"));
    assert!(!validate_ip("1.2.3.+"));
    assert!(!validate_ip(""));
    assert!(!validate_ip("1.2.3. 4"));
}

#[test]
fn number_extraction_edge_cases() {
    // the last '(' before the marker counts
    assert_eq!(extract_number_before("(1) (22 ms)", "ms)"), Some(22));
    // only the first marker counts
    assert_eq!(extract_number_before("(5 ms) (6 ms)", "ms)"), Some(5));
    // numeric characters are kept, the rest dropped
    assert_eq!(extract_number_before("(1a2b3 ms)", "ms)"), Some(123));
    // nothing numeric between '(' and the marker
    assert_eq!(extract_number_before("(fast ms)", "ms)"), None);
    // too large for u32
    assert_eq!(extract_number_before("(4294967296 ms)", "ms)"), None);
    assert_eq!(extract_number_before("(4294967295 ms)", "ms)"), Some(4294967295));
    // a '(' after the marker does not count
    assert_eq!(extract_number_before("12 ms) (3", "ms)"), None);
    // a non-ASCII numeric character is kept and makes the number unreadable
    assert_eq!(extract_number_before("(1² ms)", "ms)"), None);
}

#[test]
fn proxy_line_without_colon_is_rejected() {
    assert!(parse_proxy_line("PROXY LIVE 1.2.3.4 (10 ms) - X").is_none());
}

#[test]
fn proxy_line_without_valid_address_is_rejected() {
    assert!(parse_proxy_line("PROXY LIVE: 999.1.1.1 (10 ms) - X").is_none());
    assert!(parse_proxy_line("PROXY LIVE: no address here").is_none());
}

#[test]
fn proxy_line_defaults() {
    let p = parse_proxy_line("PROXY LIVE: 10.0.0.1").unwrap();
    assert_eq!(p.ip, "10.0.0.1");
    assert_eq!(p.location, "Unknown");
    assert_eq!(p.response_time, 0);
    assert_eq!(p.port, 443);
}

#[test]
fn proxy_line_trims_address_punctuation() {
    let p = parse_proxy_line("PROXY LIVE: [1.2.3.4], (7 ms) - Oslo ").unwrap();
    assert_eq!(p.ip, "1.2.3.4");
    assert_eq!(p.response_time, 7);
    assert_eq!(p.location, "Oslo");
}

#[test]
fn proxy_line_skips_words_with_check_mark() {
    let p = parse_proxy_line("PROXY LIVE: ✅1.1.1.1 2.2.2.2 (3 ms) - A").unwrap();
    assert_eq!(p.ip, "2.2.2.2");
}

#[test]
fn proxy_line_location_follows_last_dash() {
    let p = parse_proxy_line("PROXY LIVE: 1.2.3.4 (3 ms) - New-York").unwrap();
    assert_eq!(p.location, "York");
}

#[test]
fn proxy_list_keeps_live_lines_in_order() {
    let content = "# Daily report\r\n\
                   PROXY LIVE ✅: 167.114.67.25 (989 ms) - Beauharnois\r\n\
                   PROXY DEAD: 1.1.1.1 (5 ms) - Nowhere\n\
                   PROXY LIVE: 155.138.128.135 (314 ms) - Toronto\n\
                   PROXY LIVE: not-an-ip\n";
    let proxies = parse_proxy_list(content);
    assert_eq!(proxies.len(), 2);
    assert_eq!(proxies[0].ip, "167.114.67.25");
    assert_eq!(proxies[0].location, "Beauharnois");
    assert_eq!(proxies[1].ip, "155.138.128.135");
    assert_eq!(proxies[1].response_time, 314);
}

#[test]
fn proxy_list_of_empty_text_is_empty() {
    assert!(parse_proxy_list("").is_empty());
    assert!(parse_proxy_list("\n\n").is_empty());
}

#[test]
fn dotted_quads_of_octets_are_valid() {
    for (a, b, c, d) in [(0u8, 0u8, 0u8, 0u8), (255, 255, 255, 255), (10, 0, 0, 1), (1, 22, 133, 4)] {
        assert!(validate_ip(&format!("{}.{}.{}.{}", a, b, c, d)));
    }
}

#[test]
fn response_times_read_back() {
    for n in [0u32, 7, 989, 65536, u32::MAX] {
        assert_eq!(extract_number_before(&format!("({} ms)", n), "ms)"), Some(n));
    }
}
