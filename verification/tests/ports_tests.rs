use port::ports::parse_port;

#[test]
fn test_parse_port() {
    assert_eq!(parse_port("0100007F:1F90"), 8080);
    assert_eq!(parse_port("0000000000000000FFFF00000100007F:270F"), 9999);
    assert_eq!(parse_port("00000000:0050"), 80);
    assert_eq!(parse_port("00000000:0016"), 22);
    assert_eq!(parse_port("invalid"), 0);
}
