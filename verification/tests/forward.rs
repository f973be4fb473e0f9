use neko::forward::{parse, ForwardError, Mapping};

#[test]
fn a_single_port_maps_to_itself() {
    assert_eq!(
        parse("8000").unwrap(),
        Mapping {
            host: 8000,
            guest: 8000
        }
    );
}

#[test]
fn host_and_guest_follow_docker_order() {
    assert_eq!(
        parse("3000:8000").unwrap(),
        Mapping {
            host: 3000,
            guest: 8000
        }
    );
}

#[test]
fn forward_tests_whitespace_is_forgiven() {
    assert_eq!(
        parse(" 3000 : 8000 ").unwrap(),
        Mapping {
            host: 3000,
            guest: 8000
        }
    );
}

#[test]
fn forward_tests_nonsense_is_refused_before_a_boot_is_spent() {
    for spec in [
        "", "http", "80:", ":80", "0", "8000:0", "-1", "70000", "80:80:80",
    ] {
        assert!(parse(spec).is_err(), "expected {spec:?} to be refused");
    }
}

#[test]
fn refused_ports_are_explained() {
    assert_eq!(
        parse("http").unwrap_err().message(),
        "not a port number: http"
    );
    assert_eq!(parse("80: x ").unwrap_err().message(), "not a port number: x");
    assert_eq!(
        parse("8000:0").unwrap_err().message(),
        "port must not be zero"
    );
    assert!(matches!(parse("0").unwrap_err(), ForwardError::Zero));
    assert!(matches!(parse("").unwrap_err(), ForwardError::NotAPort(s) if s.is_empty()));
}

#[test]
fn the_largest_port_and_a_plus_sign_are_accepted() {
    assert_eq!(
        parse("+80:65535").unwrap(),
        Mapping {
            host: 80,
            guest: 65535
        }
    );
    assert!(parse("65536").is_err());
}
