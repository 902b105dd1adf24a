use weaver::identifiers::{
    AppAddr, ClientAddr, DeviceId, EndpointId, MemberId, NetworkId, ParseIdError, ScopedVirtualAddr,
    ServerAddr, ServiceId, VirtualAddr,
};
use weaver::virtual_name::VirtualName;

#[test]
fn app_addr_round_trips() {
    let addr = AppAddr::from_bytes([0x42; 32]);
    assert_eq!(addr.to_text().parse(), Ok(addr));
}

#[test]
fn network_id_round_trips() {
    let id = NetworkId::from_bytes([0x21; 32]);
    assert_eq!(id.to_text().parse(), Ok(id));
}

#[test]
fn ids_reject_wrong_lengths() {
    assert!(matches!(
        "00".parse::<DeviceId>(),
        Err(ParseIdError::InvalidEncoding { kind: "DeviceId" })
    ));
}

#[test]
fn virtual_names_are_canonical_and_reserved() {
    let name: VirtualName = "weaver.virtual".parse().unwrap();
    assert_eq!(name.as_str(), "weaver.virtual");
    assert!("Weaver.virtual".parse::<VirtualName>().is_err());
    assert!("weaver.example".parse::<VirtualName>().is_err());
    assert!("-weaver.virtual".parse::<VirtualName>().is_err());
}

#[test]
fn identifiers_print_as_lower_case_digits() {
    let mut bytes = [0u8; 32];
    bytes[0] = 0xab;
    bytes[31] = 0x0f;
    let text = NetworkId::from_bytes(bytes).to_text();
    assert_eq!(text.len(), 64);
    assert!(text.starts_with("ab00"));
    assert!(text.ends_with("000f"));
    assert_eq!(AppAddr::parse(&text).unwrap().as_bytes(), &bytes);
    assert_eq!(MemberId::parse(&text).unwrap().as_bytes(), &bytes);
    assert_eq!(DeviceId::parse(&text).unwrap().as_bytes(), &bytes);
    assert_eq!(
        DeviceId::parse(&text.to_uppercase()).unwrap().as_bytes(),
        &bytes
    );
    assert!(DeviceId::parse(&text.replace("ab", "zz")).is_err());
}

#[test]
fn identifier_errors_name_their_kind() {
    assert_eq!(
        "xyz".parse::<AppAddr>(),
        Err(ParseIdError::InvalidEncoding { kind: "AppAddr" })
    );
    assert_eq!(
        "".parse::<NetworkId>(),
        Err(ParseIdError::InvalidEncoding { kind: "NetworkId" })
    );
    assert_eq!(
        "0".parse::<MemberId>(),
        Err(ParseIdError::InvalidEncoding { kind: "MemberId" })
    );
}

#[test]
fn addresses_keep_their_parts() {
    let app = AppAddr::from_bytes([1; 32]);
    let device = DeviceId::from_bytes([2; 32]);
    let network = NetworkId::from_bytes([3; 32]);
    let server = ServerAddr::new(app);
    let client = ClientAddr::new(app, device);
    assert_eq!(server.app(), app);
    assert_eq!(client.app(), app);
    assert_eq!(client.device(), device);
    assert_eq!(server.scoped(), ScopedVirtualAddr::Server { app });
    assert_eq!(client.scoped(), ScopedVirtualAddr::Client { app, device });
    assert!(server.scoped() != client.scoped());
    assert_eq!(VirtualAddr::server(network, server).addr, server.scoped());
    assert_eq!(VirtualAddr::client(network, client).addr, client.scoped());
    assert_eq!(VirtualAddr::client(network, client).network, network);
    assert_eq!(ServiceId::from_bytes([9; 16]).as_bytes(), &[9; 16]);
    assert_eq!(EndpointId::from_bytes([8; 32]).as_bytes(), &[8; 32]);
}

#[test]
fn virtual_names_have_bounded_labels() {
    assert!(VirtualName::new("a.b-c.d9.virtual".to_string()).is_ok());
    assert!(VirtualName::new("virtual".to_string()).is_err());
    assert!(VirtualName::new(".virtual".to_string()).is_err());
    assert!(VirtualName::new("a..virtual".to_string()).is_err());
    assert!(VirtualName::new("a-.virtual".to_string()).is_err());
    assert!(VirtualName::new("a_b.virtual".to_string()).is_err());
    let label = "x".repeat(63);
    assert!(VirtualName::new(format!("{label}.virtual")).is_ok());
    assert!(VirtualName::new(format!("{label}x.virtual")).is_err());
}

#[test]
fn identifiers_are_parsed_from_digits_only() {
    let digits = "5a".repeat(32);
    let signed = format!("+1{}", "0".repeat(62));
    assert_eq!(digits.parse(), Ok(NetworkId::from_bytes([0x5a; 32])));
    assert_eq!(digits.parse(), Ok(AppAddr::from_bytes([0x5a; 32])));
    assert_eq!(digits.parse(), Ok(DeviceId::from_bytes([0x5a; 32])));
    assert_eq!(digits.parse(), Ok(MemberId::from_bytes([0x5a; 32])));
    assert_eq!(
        signed.parse::<NetworkId>(),
        Err(ParseIdError::InvalidEncoding { kind: "NetworkId" })
    );
    assert_eq!(
        signed.parse::<AppAddr>(),
        Err(ParseIdError::InvalidEncoding { kind: "AppAddr" })
    );
    assert_eq!(
        signed.parse::<DeviceId>(),
        Err(ParseIdError::InvalidEncoding { kind: "DeviceId" })
    );
    assert_eq!(
        signed.parse::<MemberId>(),
        Err(ParseIdError::InvalidEncoding { kind: "MemberId" })
    );
    assert_eq!(
        "a.virtual".parse::<VirtualName>().unwrap().as_str(),
        "a.virtual"
    );
    assert!("a virtual".parse::<VirtualName>().is_err());
}
