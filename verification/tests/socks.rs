use anytls::{SocksAddr, SocksAddrError, SocksAddrReader, SocksField, SocksHost, SocksRead};

/// Feeds `input` to a reader field by field, as the stream would.
fn read_all(input: &[u8]) -> Result<(SocksAddr, usize), SocksAddrError> {
    let mut reader = SocksAddrReader::new();
    let mut used = 0;
    loop {
        let need = reader.need();
        let chunk: Vec<u8> = if reader.field() == SocksField::AddressType && input.len() == used {
            vec![0]
        } else if input.len() - used < need {
            return Err(SocksAddrError::Truncated(reader.field()));
        } else {
            used += need;
            input[used - need..used].to_vec()
        };
        match reader.advance(&chunk) {
            SocksRead::Next(next) => reader = next,
            SocksRead::Done(addr) => return Ok((addr, used)),
            SocksRead::Failed(e) => return Err(e),
        }
    }
}

#[test]
fn reads_ipv4_address() {
    let (addr, used) = read_all(&[1, 127, 0, 0, 1, 0x1F, 0x90, 0xAA]).unwrap();
    assert_eq!(addr, SocksAddr { host: SocksHost::Ipv4([127, 0, 0, 1]), port: 8080 });
    assert_eq!(used, 7);
}

#[test]
fn reads_domain_address() {
    let mut input = vec![3, 11];
    input.extend_from_slice(b"example.com");
    input.extend_from_slice(&[0x01, 0xBB]);
    let (addr, used) = read_all(&input).unwrap();
    assert_eq!(addr, SocksAddr { host: SocksHost::Domain("example.com".to_string()), port: 443 });
    assert_eq!(used, 15);
}

#[test]
fn reads_ipv6_address() {
    let mut input = vec![4];
    input.extend_from_slice(&[0x20, 0x01, 0x0d, 0xb8, 0, 0, 0, 0, 0, 0, 0, 0, 0, 0, 0, 1]);
    input.extend_from_slice(&[0, 80]);
    let (addr, used) = read_all(&input).unwrap();
    assert_eq!(
        addr.host,
        SocksHost::Ipv6([0x20, 0x01, 0x0d, 0xb8, 0, 0, 0, 0, 0, 0, 0, 0, 0, 0, 0, 1])
    );
    assert_eq!(addr.port, 80);
    assert_eq!(used, 19);
}

#[test]
fn needs_follow_the_address_type() {
    let reader = SocksAddrReader::new();
    assert_eq!(reader.need(), 1);
    assert_eq!(reader.field(), SocksField::AddressType);
    match reader.advance(&[3]) {
        SocksRead::Next(r) => {
            assert_eq!(r.field(), SocksField::DomainLength);
            assert_eq!(r.need(), 1);
            match r.advance(&[200]) {
                SocksRead::Next(r) => {
                    assert_eq!(r.field(), SocksField::Domain);
                    assert_eq!(r.need(), 200);
                }
                other => panic!("unexpected {:?}", other),
            }
        }
        other => panic!("unexpected {:?}", other),
    }
}

#[test]
fn refuses_unknown_address_type() {
    assert_eq!(read_all(&[2, 1, 2, 3]), Err(SocksAddrError::UnsupportedAddressType(2)));
    assert_eq!(read_all(&[5]), Err(SocksAddrError::UnsupportedAddressType(5)));
}

#[test]
fn stream_at_its_end_reads_as_type_zero() {
    assert_eq!(read_all(&[]), Err(SocksAddrError::UnsupportedAddressType(0)));
}

#[test]
fn refuses_empty_domain() {
    assert_eq!(read_all(&[3, 0, 0, 80]), Err(SocksAddrError::InvalidDomainLength));
}

#[test]
fn refuses_domain_that_is_not_utf8() {
    assert_eq!(
        read_all(&[3, 2, 0xC3, 0x28, 0, 80]),
        Err(SocksAddrError::InvalidDomainName { valid_up_to: 0, error_len: Some(1) })
    );
    // The name ends inside a character after one valid byte.
    assert_eq!(
        read_all(&[3, 2, b'a', 0xE2, 0, 80]),
        Err(SocksAddrError::InvalidDomainName { valid_up_to: 1, error_len: None })
    );
}

#[test]
fn reports_the_field_that_was_cut_off() {
    assert_eq!(read_all(&[1, 10, 0]), Err(SocksAddrError::Truncated(SocksField::Ipv4)));
    assert_eq!(read_all(&[3]), Err(SocksAddrError::Truncated(SocksField::DomainLength)));
    assert_eq!(read_all(&[3, 4, b'a']), Err(SocksAddrError::Truncated(SocksField::Domain)));
    assert_eq!(read_all(&[4, 0, 0]), Err(SocksAddrError::Truncated(SocksField::Ipv6)));
    assert_eq!(read_all(&[1, 10, 0, 0, 1, 0]), Err(SocksAddrError::Truncated(SocksField::Port)));
}
