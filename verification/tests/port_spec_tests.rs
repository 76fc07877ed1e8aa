use ports_manager::ParseError;
use ports_manager::PortSpec;

#[test]
fn test_portspec_parse_single_port() {
    let result = PortSpec::parse("8080");
    assert!(result.is_ok());
    match result.unwrap() {
        PortSpec::Single(port) => assert_eq!(port, 8080),
        _ => panic!("Expected Single port"),
    }
}

#[test]
fn test_portspec_parse_single_port_with_whitespace() {
    let result = PortSpec::parse("  8080  ");
    assert!(result.is_ok());
    match result.unwrap() {
        PortSpec::Single(port) => assert_eq!(port, 8080),
        _ => panic!("Expected Single port"),
    }
}

#[test]
fn test_portspec_parse_range() {
    let result = PortSpec::parse("8000-8010");
    assert!(result.is_ok());
    match result.unwrap() {
        PortSpec::Range { start, end } => {
            assert_eq!(start, 8000);
            assert_eq!(end, 8010);
        }
        _ => panic!("Expected Range"),
    }
}

#[test]
fn test_portspec_parse_range_with_whitespace() {
    let result = PortSpec::parse(" 8000 - 8010 ");
    assert!(result.is_ok());
    match result.unwrap() {
        PortSpec::Range { start, end } => {
            assert_eq!(start, 8000);
            assert_eq!(end, 8010);
        }
        _ => panic!("Expected Range"),
    }
}

#[test]
fn test_portspec_parse_invalid_port() {
    let result = PortSpec::parse("invalid");
    assert!(result.is_err());
    assert!(result.unwrap_err().message().contains("Invalid port"));
}

#[test]
fn test_portspec_parse_invalid_range_start() {
    let result = PortSpec::parse("invalid-8010");
    assert!(result.is_err());
    assert!(result.unwrap_err().message().contains("Invalid start port"));
}

#[test]
fn test_portspec_parse_invalid_range_end() {
    let result = PortSpec::parse("8000-invalid");
    assert!(result.is_err());
    assert!(result.unwrap_err().message().contains("Invalid end port"));
}

#[test]
fn test_portspec_parse_range_start_equals_end() {
    let result = PortSpec::parse("8000-8000");
    assert!(result.is_err());
    assert!(result
        .unwrap_err()
        .message()
        .contains("Start port must be less than end port"));
}

#[test]
fn test_portspec_parse_range_start_greater_than_end() {
    let result = PortSpec::parse("8010-8000");
    assert!(result.is_err());
    assert!(result
        .unwrap_err()
        .message()
        .contains("Start port must be less than end port"));
}

#[test]
fn test_portspec_parse_out_of_range() {
    let result = PortSpec::parse("99999");
    assert!(result.is_err());
}

#[test]
fn test_portspec_parse_negative() {
    let result = PortSpec::parse("-1");
    assert!(result.is_err());
}

#[test]
fn test_portspec_parse_zero() {
    let result = PortSpec::parse("0");
    assert!(result.is_ok());
    match result.unwrap() {
        PortSpec::Single(port) => assert_eq!(port, 0),
        _ => panic!("Expected Single port"),
    }
}

#[test]
fn test_portspec_parse_max_port() {
    let result = PortSpec::parse("65535");
    assert!(result.is_ok());
    match result.unwrap() {
        PortSpec::Single(port) => assert_eq!(port, 65535),
        _ => panic!("Expected Single port"),
    }
}

#[test]
fn test_portspec_display_single() {
    let spec = PortSpec::Single(8080);
    assert_eq!(spec.display(), "8080");
}

#[test]
fn test_portspec_display_range() {
    let spec = PortSpec::Range {
        start: 8000,
        end: 8010,
    };
    assert_eq!(spec.display(), "8000-8010");
}

#[test]
fn test_portspec_parse_error_variants() {
    assert_eq!(PortSpec::parse(""), Err(ParseError::InvalidPort));
    assert_eq!(PortSpec::parse("  "), Err(ParseError::InvalidPort));
    assert_eq!(PortSpec::parse("65536"), Err(ParseError::InvalidPort));
    assert_eq!(PortSpec::parse("8000-"), Err(ParseError::InvalidRangeEnd));
    assert_eq!(PortSpec::parse("-8000"), Err(ParseError::InvalidRangeStart));
    assert_eq!(
        PortSpec::parse("70000-70001"),
        Err(ParseError::InvalidRangeStart)
    );
    assert_eq!(
        PortSpec::parse("8000-70000"),
        Err(ParseError::InvalidRangeEnd)
    );
    assert_eq!(
        PortSpec::parse("1-2-3"),
        Err(ParseError::InvalidRangeEnd)
    );
    assert_eq!(
        PortSpec::parse("9000-9000"),
        Err(ParseError::StartNotLessThanEnd)
    );
}

#[test]
fn test_portspec_parse_splits_on_first_dash() {
    // "1-2-3" splits after "1"; the rest, "2-3", is not a number.
    assert_eq!(PortSpec::parse("1-2-3"), Err(ParseError::InvalidRangeEnd));
}

#[test]
fn test_portspec_parse_accepts_leading_zeros() {
    assert_eq!(PortSpec::parse("007"), Ok(PortSpec::Single(7)));
    assert_eq!(
        PortSpec::parse("08000-08010"),
        Ok(PortSpec::Range {
            start: 8000,
            end: 8010
        })
    );
}

#[test]
fn test_portspec_round_trip_display_of_parse() {
    // The round-trip law on concrete canonical texts: display of a parsed
    // text is the text with its whitespace stripped.
    for text in ["0", "8080", "65535", " 443 ", "8000-8010", " 1 - 65535 "] {
        let spec = PortSpec::parse(text).unwrap();
        let stripped: String = text.chars().filter(|c| !c.is_whitespace()).collect();
        assert_eq!(spec.display(), stripped);
    }
}

#[test]
fn test_portspec_round_trip_parse_of_display() {
    let values = [
        PortSpec::Single(0),
        PortSpec::Single(53),
        PortSpec::Single(65535),
        PortSpec::Range { start: 1, end: 2 },
        PortSpec::Range {
            start: 8000,
            end: 65535,
        },
    ];
    for v in values {
        assert_eq!(PortSpec::parse(&v.display()), Ok(v));
    }
}

#[test]
fn test_parse_error_messages() {
    assert_eq!(ParseError::InvalidPort.message(), "Invalid port");
    assert_eq!(ParseError::InvalidRangeStart.message(), "Invalid start port");
    assert_eq!(ParseError::InvalidRangeEnd.message(), "Invalid end port");
    assert_eq!(
        ParseError::StartNotLessThanEnd.message(),
        "Start port must be less than end port"
    );
}
