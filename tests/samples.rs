use rust_skills::samples::{
    apply_config, connect, distinct_sorted, connect_to_server, get_status_message, parse_config_line, parse_port,
    parse_port_value, read_config, run, Config, ConfigEntry, PortError, RunError,
};

fn entry(k: &str, v: &str) -> ConfigEntry {
    ConfigEntry { key: k.as_bytes().to_vec(), value: v.as_bytes().to_vec() }
}

fn lines(ls: &[&str]) -> Vec<Vec<u8>> {
    ls.iter().map(|l| l.as_bytes().to_vec()).collect()
}

#[test]
fn status_messages() {
    assert_eq!(get_status_message(200), "OK");
    assert_eq!(get_status_message(404), "Not Found");
    assert_eq!(get_status_message(500), "Unknown");
}

#[test]
fn connect_needs_positive_timeout() {
    assert_eq!(connect("localhost", 5000), Ok(()));
    assert_eq!(connect("localhost", 0), Err("timeout must be positive".to_string()));
    let cfg = Config { max_retries: 3, timeout_ms: 5000, verbose: true };
    assert_eq!(apply_config(&cfg, "localhost"), Ok(()));
    let cfg = Config { max_retries: 3, timeout_ms: 0, verbose: false };
    assert_eq!(apply_config(&cfg, "localhost"), Err("timeout must be positive".to_string()));
}

#[test]
fn server_address_checks() {
    assert_eq!(connect_to_server(b"", 80), Err("host is empty".to_string()));
    assert_eq!(connect_to_server(b"example.org", 0), Err("invalid port".to_string()));
    assert_eq!(connect_to_server(b"example.org", 80), Ok(()));
}

#[test]
fn config_lines_are_split_and_trimmed() {
    let e = parse_config_line(&b"  port = 8080 \r".to_vec()).unwrap();
    assert_eq!(e.key, b"port".to_vec());
    assert_eq!(e.value, b"8080".to_vec());
    let e = parse_config_line(&b"a=b=c".to_vec()).unwrap();
    assert_eq!(e.key, b"a".to_vec());
    assert_eq!(e.value, b"b".to_vec());
    let e = parse_config_line(&b"\x0bk\x0c=\n v \x0b".to_vec()).unwrap();
    assert_eq!(e.key, b"k".to_vec());
    assert_eq!(e.value, b"v".to_vec());
    let e = parse_config_line(&b"k=".to_vec()).unwrap();
    assert!(e.value.is_empty());
    assert!(parse_config_line(&b"no separator".to_vec()).is_none());
    let c = read_config(&lines(&["host = example.org", "port=80"])).unwrap();
    assert_eq!(c.len(), 2);
    assert_eq!(c[0].value, b"example.org".to_vec());
    assert_eq!(read_config(&lines(&["host = x", "oops", "y"])).err().unwrap().line, 1);
}

#[test]
fn port_parsing() {
    assert_eq!(parse_port(&vec![entry("host", "x"), entry("port", "8080")]), Ok(8080));
    assert_eq!(parse_port(&vec![entry("port", "1"), entry("port", "2")]), Ok(2));
    assert_eq!(parse_port(&vec![entry("port", "+80")]), Ok(80));
    assert_eq!(parse_port(&vec![entry("port", "+")]), Err(PortError::NotANumber));
    assert_eq!(parse_port(&vec![entry("port", "++80")]), Err(PortError::NotANumber));
    assert_eq!(parse_port(&vec![entry("port", "-80")]), Err(PortError::NotANumber));
    assert_eq!(parse_port(&vec![entry("host", "x")]), Err(PortError::Missing));
    assert_eq!(parse_port(&vec![entry("port", "")]), Err(PortError::NotANumber));
    assert_eq!(parse_port(&vec![entry("port", "80a")]), Err(PortError::NotANumber));
    assert_eq!(parse_port(&vec![entry("port", "65536")]), Err(PortError::OutOfRange));
    assert_eq!(parse_port_value(&b"65535".to_vec()), Ok(65535));
    assert_eq!(parse_port_value(&b"0".to_vec()), Ok(0));
}

#[test]
fn run_reads_and_checks_a_configuration() {
    let (host, port) = run(&lines(&["host = example.org", "port = 443"])).unwrap();
    assert_eq!(host, b"example.org".to_vec());
    assert_eq!(port, 443);
    assert!(matches!(run(&lines(&["host"])), Err(RunError::Malformed(_))));
    assert!(matches!(run(&lines(&["host = a"])), Err(RunError::Port(PortError::Missing))));
    assert!(matches!(run(&lines(&["port = 80"])), Err(RunError::MissingHost)));
    assert!(matches!(run(&lines(&["host =", "port = 80"])), Err(RunError::Server(_))));
    assert!(matches!(run(&lines(&["host = a", "port = 0"])), Err(RunError::Server(_))));
    let (_, port) = run(&lines(&["host = a.example", "port=8080", "port = 9090"])).unwrap();
    assert_eq!(port, 9090);
    match run(&lines(&["host=h", "port=5", "port=0"])) {
        Err(RunError::Server(e)) => assert_eq!(e, "invalid port"),
        _ => panic!("a later port of 0 must be rejected"),
    }
    match run(&lines(&["host=", "port=5"])) {
        Err(RunError::Server(e)) => assert_eq!(e, "host is empty"),
        _ => panic!("an empty host must be rejected"),
    }
    assert!(matches!(run(&lines(&["host=h", "port=5", "port=x"])), Err(RunError::Port(PortError::NotANumber))));
    assert_eq!(run(&lines(&["host=h", "port=0", "port=5"])).unwrap().1, 5);
}

#[test]
fn names_sorted_once_each() {
    let names = lines(&["Bob", "Alice", "Bob", "Al", ""]);
    assert_eq!(distinct_sorted(&names), lines(&["", "Al", "Alice", "Bob"]));
    assert!(distinct_sorted(&vec![]).is_empty());
}

#[test]
fn port_text_round_trips_through_a_later_setting() {
    for n in [0u16, 7, 80, 443, 65535] {
        let mut c = vec![entry("host", "h"), entry("port", "abc")];
        c.push(entry("port", &n.to_string()));
        assert_eq!(parse_port(&c), Ok(n));
        assert_eq!(parse_port(&c), Ok(n));
    }
}

#[test]
fn config_lines_are_trimmed_of_unicode_white_space() {
    let e = parse_config_line(&"a\u{a0}=b".as_bytes().to_vec()).unwrap();
    assert_eq!(e.key, b"a".to_vec());
    assert_eq!(e.value, b"b".to_vec());
    let e = parse_config_line(&"\u{3000}\u{2003}port\u{85}=\u{2028} 80\u{205f}\u{1680}\u{202f}".as_bytes().to_vec()).unwrap();
    assert_eq!(e.key, b"port".to_vec());
    assert_eq!(e.value, b"80".to_vec());
    let e = parse_config_line(&" caf\u{e9} = \u{200b}x ".as_bytes().to_vec()).unwrap();
    assert_eq!(e.key, "caf\u{e9}".as_bytes().to_vec());
    assert_eq!(e.value, "\u{200b}x".as_bytes().to_vec());
    assert_eq!(parse_port(&read_config(&lines(&["port\u{a0}= 80"])).ok().unwrap()), Ok(80));
    assert_eq!(" \u{a0}x\u{3000}".trim(), "x");
}
