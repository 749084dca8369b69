use udev_hid_bpf::modalias::Modalias;
use udev_hid_bpf::Error;

#[test]
fn test_modalias() {
    let modalias = "b0003g0001v000004D9p0000A09F";
    let m = Modalias::from_static_str(modalias);
    assert!(m.is_ok());
    let m = m.unwrap();
    assert!(m.bus == 0x0003);
    assert!(m.group == 0x0001);
    assert!(m.vid == 0x04d9);
    assert!(m.pid == 0xa09f);

    // parsing doesn't care about uppercase hex
    let m = Modalias::from_str(modalias.to_lowercase().as_str());
    assert!(m.is_ok());
    let m = m.unwrap();
    assert!(m.bus == 0x0003);
    assert!(m.group == 0x0001);
    assert!(m.vid == 0x04d9);
    assert!(m.pid == 0xa09f);

    // 4-digit vid
    let modalias = "b0003g0001v04D9p0000A09F";
    let m = Modalias::from_str(modalias.to_lowercase().as_str());
    assert!(m.is_err());

    // 4-digit pid
    let modalias = "b0003g0001v000004D9pA09F";
    let m = Modalias::from_str(modalias.to_lowercase().as_str());
    assert!(m.is_err());

    // invalid char
    let modalias = "b0003g0001v0000g4D9pA09F";
    let m = Modalias::from_str(modalias.to_lowercase().as_str());
    assert!(m.is_err());
}

#[test]
fn parse_with_prefix() {
    let m = Modalias::from_str("hid:b0003g0001v000004D9p0000A09F").unwrap();
    assert_eq!(m.bus, 0x0003);
    assert_eq!(m.group, 0x0001);
    assert_eq!(m.vid, 0x04d9);
    assert_eq!(m.pid, 0xa09f);
}

#[test]
fn parse_wrong_length_fails() {
    assert_eq!(Modalias::from_str(""), Err(Error::MalformedIdentity));
    assert_eq!(Modalias::from_str("hid:"), Err(Error::MalformedIdentity));
    // 27 characters
    assert_eq!(
        Modalias::from_str("b0003g0001v000004D9p0000A09"),
        Err(Error::MalformedIdentity)
    );
    // 29 characters
    assert_eq!(
        Modalias::from_str("b0003g0001v000004D9p0000A09F0"),
        Err(Error::MalformedIdentity)
    );
    // correct length only after prefix stripping
    assert!(Modalias::from_str("hid:b0003g0001v000004D9p0000A09F").is_ok());
}

#[test]
fn parse_non_hex_field_fails() {
    // 'z' inside the bus field
    assert_eq!(
        Modalias::from_str("b000zg0001v000004D9p0000A09F"),
        Err(Error::MalformedIdentity)
    );
    // 'g' inside the product field
    assert_eq!(
        Modalias::from_str("b0003g0001v000004D9p0000A09G"),
        Err(Error::MalformedIdentity)
    );
    // the separators at positions 0, 5, 10 and 19 are structural and not
    // validated: any characters there are accepted
    let m = Modalias::from_str("x0003y0001z000004D9q0000A09F").unwrap();
    assert_eq!(m.bus, 0x0003);
    assert_eq!(m.pid, 0xa09f);
}

#[test]
fn parse_property_absent_is_malformed() {
    assert_eq!(Modalias::from_property(None), Err(Error::MalformedIdentity));
    let m = Modalias::from_property(Some("hid:b0003g0001v000004D9p0000A09F")).unwrap();
    assert_eq!(m.vid, 0x04d9);
}
