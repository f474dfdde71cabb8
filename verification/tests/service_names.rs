use port_scanner::service::get_service;

#[test]
fn well_known_ports_have_their_names() {
    assert_eq!(get_service(20), "ftp");
    assert_eq!(get_service(21), "ftp");
    assert_eq!(get_service(22), "ssh");
    assert_eq!(get_service(23), "telnet");
    assert_eq!(get_service(25), "smtp");
    assert_eq!(get_service(53), "dns");
    assert_eq!(get_service(80), "http");
    assert_eq!(get_service(8080), "http");
    assert_eq!(get_service(110), "pop3");
    assert_eq!(get_service(143), "imap");
    assert_eq!(get_service(443), "https");
    assert_eq!(get_service(8443), "https");
    assert_eq!(get_service(465), "smtps");
    assert_eq!(get_service(587), "smtp-submission");
    assert_eq!(get_service(993), "imaps");
    assert_eq!(get_service(995), "pop3s");
    assert_eq!(get_service(3306), "mysql");
    assert_eq!(get_service(3389), "rdp");
    assert_eq!(get_service(5432), "postgresql");
    assert_eq!(get_service(5900), "vnc");
    assert_eq!(get_service(6379), "redis");
    assert_eq!(get_service(8888), "alt-http");
    assert_eq!(get_service(27017), "mongodb");
}

#[test]
fn other_ports_are_unknown() {
    assert_eq!(get_service(0), "unknown");
    assert_eq!(get_service(1), "unknown");
    assert_eq!(get_service(19), "unknown");
    assert_eq!(get_service(24), "unknown");
    assert_eq!(get_service(81), "unknown");
    assert_eq!(get_service(8081), "unknown");
    assert_eq!(get_service(65535), "unknown");
}

#[test]
fn exactly_the_table_is_known() {
    let known: Vec<u16> = vec![
        20, 21, 22, 23, 25, 53, 80, 110, 143, 443, 465, 587, 993, 995, 3306, 3389, 5432, 5900,
        6379, 8080, 8443, 8888, 27017,
    ];
    let mut port: u32 = 0;
    while port <= 65535 {
        let name = get_service(port as u16);
        assert_eq!(name != "unknown", known.contains(&(port as u16)), "port {}", port);
        port += 1;
    }
}
