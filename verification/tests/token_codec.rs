use lightyear_netcode::error::{Error, TokenError};
use lightyear_netcode::token::{ConnectToken, ServerAddr};
use lightyear_netcode::CONNECT_TOKEN_SIZE;

fn sample() -> ConnectToken {
    let mut nonce = [0u8; 24];
    let mut private_data = [0u8; 1024];
    for (i, byte) in nonce.iter_mut().enumerate() {
        *byte = i as u8;
    }
    for (i, byte) in private_data.iter_mut().enumerate() {
        *byte = (i % 251) as u8;
    }
    ConnectToken {
        protocol_id: 0x0102_0304_0506_0708,
        create_timestamp: 1_700_000_000,
        expire_timestamp: 1_700_000_030,
        nonce,
        private_data,
        timeout_seconds: -5,
        server_addresses: vec![
            ServerAddr::V4 { octets: [192, 168, 1, 20], port: 40_007 },
            ServerAddr::V6 { segments: [0x2001, 0xdb8, 0, 0, 0, 0xff00, 0x42, 0x8329], port: 443 },
            ServerAddr::V4 { octets: [10, 0, 0, 1], port: 1 },
        ],
        client_to_server_key: [0xaa; 32],
        server_to_client_key: [0xbb; 32],
    }
}

#[test]
fn token_round_trips_through_its_blob() {
    let token = sample();
    let blob = token.try_into_bytes().unwrap();
    assert_eq!(blob.len(), CONNECT_TOKEN_SIZE);
    assert_eq!(ConnectToken::read_from(&blob), Ok(token));
}

#[test]
fn blob_lays_the_fields_out_in_order() {
    let blob = sample().try_into_bytes().unwrap();
    assert_eq!(&blob[0..8], &[8, 7, 6, 5, 4, 3, 2, 1]);
    assert_eq!(&blob[8..16], &1_700_000_000u64.to_le_bytes());
    assert_eq!(&blob[16..24], &1_700_000_030u64.to_le_bytes());
    assert_eq!(blob[24], 0);
    assert_eq!(blob[47], 23);
    assert_eq!(blob[48], 0);
    assert_eq!(blob[48 + 300], 49);
    assert_eq!(&blob[1072..1076], &(-5i32).to_le_bytes());
    assert_eq!(&blob[1076..1080], &[3, 0, 0, 0]);
    // first address: IPv4
    assert_eq!(&blob[1080..1087], &[1, 192, 168, 1, 20, 0x47, 0x9c]);
    // second address: IPv6, groups little-endian
    assert_eq!(blob[1087], 2);
    assert_eq!(&blob[1088..1092], &[0x01, 0x20, 0xb8, 0x0d]);
    assert_eq!(&blob[1104..1106], &[0xbb, 0x01]);
    // third address, then the keys
    assert_eq!(&blob[1106..1113], &[1, 10, 0, 0, 1, 1, 0]);
    assert_eq!(&blob[1113..1145], &[0xaa; 32]);
    assert_eq!(&blob[1145..1177], &[0xbb; 32]);
    assert!(blob[1177..].iter().all(|byte| *byte == 0));
}

#[test]
fn blob_of_the_wrong_size_is_a_size_mismatch() {
    let blob = sample().try_into_bytes().unwrap();
    assert_eq!(ConnectToken::read_from(&blob[..2047]), Err(Error::SizeMismatch(2048, 2047)));
    assert_eq!(ConnectToken::read_from(&[]), Err(Error::SizeMismatch(2048, 0)));
    let mut longer = blob.clone();
    longer.push(0);
    assert_eq!(ConnectToken::read_from(&longer), Err(Error::SizeMismatch(2048, 2049)));
}

#[test]
fn address_count_out_of_range_is_an_invalid_token() {
    let mut blob = sample().try_into_bytes().unwrap();
    blob[1076] = 0;
    assert_eq!(
        ConnectToken::read_from(&blob),
        Err(Error::InvalidToken(TokenError::AddressCount(0)))
    );
    blob[1076] = 33;
    assert_eq!(
        ConnectToken::read_from(&blob),
        Err(Error::InvalidToken(TokenError::AddressCount(33)))
    );
    blob[1076] = 1;
    blob[1079] = 1;
    assert_eq!(
        ConnectToken::read_from(&blob),
        Err(Error::InvalidToken(TokenError::AddressCount(0x0100_0001)))
    );
}

#[test]
fn unknown_address_kind_is_an_invalid_token() {
    let mut blob = sample().try_into_bytes().unwrap();
    blob[1087] = 9;
    assert_eq!(
        ConnectToken::read_from(&blob),
        Err(Error::InvalidToken(TokenError::AddressKind(9)))
    );
    blob[1080] = 0;
    assert_eq!(
        ConnectToken::read_from(&blob),
        Err(Error::InvalidToken(TokenError::AddressKind(0)))
    );
}

#[test]
fn token_with_a_bad_address_list_does_not_serialize() {
    let mut token = sample();
    token.server_addresses.clear();
    assert_eq!(token.try_into_bytes(), Err(Error::InvalidToken(TokenError::AddressCount(0))));
    token.server_addresses = vec![ServerAddr::V4 { octets: [1, 2, 3, 4], port: 5 }; 33];
    assert_eq!(token.try_into_bytes(), Err(Error::InvalidToken(TokenError::AddressCount(33))));
    token.server_addresses.truncate(32);
    let blob = token.try_into_bytes().unwrap();
    assert_eq!(ConnectToken::read_from(&blob), Ok(token));
}

#[test]
fn token_with_the_longest_address_list_fits_the_blob() {
    let mut token = sample();
    token.server_addresses =
        vec![ServerAddr::V6 { segments: [1, 2, 3, 4, 5, 6, 7, 8], port: 9 }; 32];
    let blob = token.try_into_bytes().unwrap();
    assert_eq!(blob.len(), 2048);
    assert_eq!(&blob[1080 + 32 * 19..1080 + 32 * 19 + 32], &[0xaa; 32]);
    assert_eq!(ConnectToken::read_from(&blob), Ok(token));
}
