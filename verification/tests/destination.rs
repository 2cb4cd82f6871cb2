use homeserver_core::destination::{
    add_port_to_hostname, get_ip_with_port, parse_port, port_digits, FedDest, IpLiteral,
    ParsedLiteral, SocketLiteral,
};

fn ip(text: &str) -> IpLiteral {
    IpLiteral { text: text.to_owned(), v6: text.contains(':') }
}

fn socket(address: &str, port: u16) -> SocketLiteral {
    SocketLiteral { ip: ip(address), port }
}

fn bare(address: &str) -> ParsedLiteral {
    ParsedLiteral { socket: None, ip: Some(ip(address)) }
}

fn with_port(address: &str, port: u16) -> ParsedLiteral {
    ParsedLiteral { socket: Some(socket(address, port)), ip: None }
}

fn name() -> ParsedLiteral {
    ParsedLiteral { socket: None, ip: None }
}

#[test]
fn ips_get_default_ports() {
    assert_eq!(
        get_ip_with_port(&bare("1.1.1.1")),
        Some(FedDest::Literal(socket("1.1.1.1", 8448)))
    );
    assert_eq!(
        get_ip_with_port(&bare("dead:beef::")),
        Some(FedDest::Literal(socket("dead:beef::", 8448)))
    );
    assert_eq!(
        get_ip_with_port(&bare("1.1.1.1")).unwrap().into_uri_string(),
        "1.1.1.1:8448"
    );
    assert_eq!(
        get_ip_with_port(&bare("dead:beef::")).unwrap().into_uri_string(),
        "[dead:beef::]:8448"
    );
}

#[test]
fn ips_keep_custom_ports() {
    assert_eq!(
        get_ip_with_port(&with_port("1.1.1.1", 1234)),
        Some(FedDest::Literal(socket("1.1.1.1", 1234)))
    );
    assert_eq!(
        get_ip_with_port(&with_port("dead::beef", 8933)),
        Some(FedDest::Literal(socket("dead::beef", 8933)))
    );
    assert_eq!(
        get_ip_with_port(&with_port("1.1.1.1", 1234)).unwrap().into_uri_string(),
        "1.1.1.1:1234"
    );
    assert_eq!(
        get_ip_with_port(&with_port("dead::beef", 8933)).unwrap().into_uri_string(),
        "[dead::beef]:8933"
    );
}

#[test]
fn hostnames_get_default_ports() {
    assert_eq!(
        add_port_to_hostname("example.com"),
        FedDest::Named(String::from("example.com"), String::from(":8448"))
    );
}

#[test]
fn hostnames_keep_custom_ports() {
    assert_eq!(
        add_port_to_hostname("example.com:1337"),
        FedDest::Named(String::from("example.com"), String::from(":1337"))
    );
}

#[test]
fn hostnames_are_no_literals() {
    assert_eq!(get_ip_with_port(&name()), None);
}

#[test]
fn hostnames_split_at_the_first_colon() {
    assert_eq!(
        add_port_to_hostname("a:b:c"),
        FedDest::Named(String::from("a"), String::from(":b:c"))
    );
    assert_eq!(add_port_to_hostname(""), FedDest::Named(String::new(), String::from(":8448")));
}

#[test]
fn ports_parse_like_numbers() {
    assert_eq!(parse_port("8448"), Some(8448));
    assert_eq!(parse_port("0"), Some(0));
    assert_eq!(parse_port("65535"), Some(65535));
    assert_eq!(parse_port("+443"), Some(443));
    assert_eq!(parse_port("0080"), Some(80));
    assert_eq!(parse_port("65536"), None);
    assert_eq!(parse_port("99999999999999999999"), None);
    assert_eq!(parse_port(""), None);
    assert_eq!(parse_port("+"), None);
    assert_eq!(parse_port("-1"), None);
    assert_eq!(parse_port(":8448"), None);
    assert_eq!(parse_port("84a8"), None);
    assert_eq!(parse_port(" 80"), None);
}

#[test]
fn ports_parse_as_std_does() {
    for text in ["1", "007", "+0", "65535", "65536", "", "+", "++1", "1+", "12x", "٣"] {
        assert_eq!(parse_port(text), text.parse::<u16>().ok(), "{:?}", text);
    }
}

#[test]
fn ports_print_in_decimal() {
    assert_eq!(port_digits(0), "0");
    assert_eq!(port_digits(7), "7");
    assert_eq!(port_digits(10), "10");
    assert_eq!(port_digits(8448), "8448");
    assert_eq!(port_digits(65535), "65535");
}

#[test]
fn ports_survive_printing_and_parsing() {
    for port in [0u16, 1, 9, 10, 99, 100, 443, 8448, 9001, 65535] {
        assert_eq!(parse_port(&port_digits(port)), Some(port));
        assert_eq!(port_digits(port), port.to_string());
    }
}

#[test]
fn socket_literals_print_with_their_port() {
    assert_eq!(socket("1.1.1.1", 8448).text(), "1.1.1.1:8448");
    assert_eq!(socket("dead:beef::", 8448).text(), "[dead:beef::]:8448");
    assert_eq!(socket("::1", 1).text(), "[::1]:1");
    assert_eq!(socket("198.51.100.3", 65535).text(), "198.51.100.3:65535");
    assert_eq!(socket("0.0.0.0", 0).text(), "0.0.0.0:0");
}

#[test]
fn destinations_print_as_uri_and_url() {
    let named = FedDest::Named(String::from("matrix.example.org"), String::from(":8448"));
    assert_eq!(named.clone().into_uri_string(), "matrix.example.org:8448");
    assert_eq!(named.clone().into_https_string(), "https://matrix.example.org:8448");
    assert_eq!(named.hostname(), "matrix.example.org");
    assert_eq!(named.port(), Some(8448));

    let bare = FedDest::Named(String::from("198.51.100.5"), String::new());
    assert_eq!(bare.clone().into_uri_string(), "198.51.100.5");
    assert_eq!(bare.clone().into_https_string(), "https://198.51.100.5");
    assert_eq!(bare.port(), None);

    let v4 = FedDest::Literal(socket("198.51.100.3", 8448));
    assert_eq!(v4.clone().into_uri_string(), "198.51.100.3:8448");
    assert_eq!(v4.clone().into_https_string(), "https://198.51.100.3:8448");
    assert_eq!(v4.hostname(), "198.51.100.3");
    assert_eq!(v4.port(), Some(8448));

    let v6 = FedDest::Literal(socket("2001:db8::4:5", 443));
    assert_eq!(v6.clone().into_uri_string(), "[2001:db8::4:5]:443");
    assert_eq!(v6.clone().into_https_string(), "https://[2001:db8::4:5]:443");
    assert_eq!(v6.hostname(), "2001:db8::4:5");
    assert_eq!(v6.port(), Some(443));
}

#[test]
fn named_ports_that_are_no_numbers_are_none() {
    assert_eq!(FedDest::Named(String::from("a"), String::from(":b")).port(), None);
    assert_eq!(FedDest::Named(String::from("a"), String::from(":")).port(), None);
    assert_eq!(FedDest::Named(String::from("a"), String::from(":70000")).port(), None);
    assert_eq!(FedDest::Named(String::from("a"), String::from("x80")).port(), Some(80));
}

#[test]
fn copies_are_equal() {
    let dest = FedDest::Literal(socket("::1", 8448));
    assert_eq!(dest.duplicate(), dest);
    let named = FedDest::Named(String::from("h"), String::from(":1"));
    assert_eq!(named.duplicate(), named);
}
