use block_import::address::{Address, AddressError, Bech32Error, Network};
use block_import::bits::{rearrange_bits_into_group_of_5, rearrange_bits_into_group_of_8};
use block_import::hash::H160;

fn account() -> H160 {
    // 3f4aa1fedf1f54eeb03b759deadb36676b184911
    H160([
        0x3f, 0x4a, 0xa1, 0xfe, 0xdf, 0x1f, 0x54, 0xee, 0xb0, 0x3b, 0x75, 0x9d, 0xea, 0xdb, 0x36,
        0x67, 0x6b, 0x18, 0x49, 0x11,
    ])
}

#[test]
fn test_address_to_string() {
    let address = Address { network: Network::Mainnet, account_id: account() };

    assert_eq!("cc18a92rlklra2wavpmwkw74kekva43sjg3u9ct0x".to_owned(), address.to_string());
}

#[test]
fn test_address_from_str() {
    let address = Address { network: Network::Mainnet, account_id: account() };

    assert_eq!(address, Address::from_str("cc18a92rlklra2wavpmwkw74kekva43sjg3u9ct0x").unwrap());
}

#[test]
fn testnet_address_round_trip() {
    let address = Address { network: Network::Testnet, account_id: account() };
    let text = address.to_string();
    assert!(text.starts_with("tc1"));
    assert_eq!(Address::from_str(&text), Ok(address));
}

#[test]
fn default_address_is_all_zero() {
    let address = Address::default(Network::Testnet);
    assert_eq!(address.network, Network::Testnet);
    assert_eq!(address.account_id, H160([0u8; 20]));
    assert_eq!(Address::from_str(&address.to_string()), Ok(address));
}

#[test]
fn from_str_rejects_unknown_network() {
    // "bech32" with the data values 0, 1, 2.
    assert_eq!(Address::from_str("bech321qpz4nc4pe"), Err(AddressError::Bech32UnknownHRP));
}

#[test]
fn from_str_rejects_short_data() {
    let short = bech32::Bech32 { hrp: "cc".to_string(), data: vec![0, 1, 2] }.to_string().unwrap();
    assert_eq!(Address::from_str(&short), Err(AddressError::Bech32DataTooShort));
    let barely = bech32::Bech32 { hrp: "tc".to_string(), data: vec![7; 31] }.to_string().unwrap();
    assert_eq!(Address::from_str(&barely), Err(AddressError::Bech32DataTooShort));
}

#[test]
fn from_str_reads_the_first_32_groups() {
    let mut data = vec![0u8; 33];
    data[31] = 1;
    data[32] = 31;
    let text = bech32::Bech32 { hrp: "tc".to_string(), data }.to_string().unwrap();
    let mut account = [0u8; 20];
    account[19] = 1;
    assert_eq!(
        Address::from_str(&text),
        Ok(Address { network: Network::Testnet, account_id: H160(account) })
    );
}

#[test]
fn from_str_rejects_missing_separator_and_length() {
    assert_eq!(
        Address::from_str("ccqqqqqqqqqq"),
        Err(AddressError::Bech32(Bech32Error::MissingSeparator))
    );
    assert_eq!(Address::from_str("cc1qq"), Err(AddressError::Bech32(Bech32Error::InvalidLength)));
}

#[test]
fn from_str_reports_bech32_errors() {
    assert_eq!(
        Address::from_str("cc18a92rlklra2wavpmwkw74kekva43sjg3u9ct0q"),
        Err(AddressError::Bech32(Bech32Error::InvalidChecksum))
    );
    assert_eq!(
        Address::from_str("cc18a92rlklra2wavpmwkw74kekva43sjg3u9ctbx"),
        Err(AddressError::Bech32(Bech32Error::InvalidChar(b'b')))
    );
    assert_eq!(
        Address::from_str("cc18A92rlklra2wavpmwkw74kekva43sjg3u9ct0x"),
        Err(AddressError::Bech32(Bech32Error::MixedCase))
    );
}

#[test]
fn five_bit_groups_of_known_bytes() {
    let mut data = [0u8; 20];
    data[0] = 0b1111_1000;
    data[1] = 0b0100_0010;
    data[4] = 0b0001_1111;
    data[19] = 0b0000_0001;
    let groups = rearrange_bits_into_group_of_5(&data);
    assert_eq!(groups.len(), 32);
    assert_eq!(groups[0], 0b11111);
    assert_eq!(groups[1], 0b00001);
    assert_eq!(groups[2], 0b00001);
    assert_eq!(groups[3], 0b00000);
    assert_eq!(groups[7], 0b11111);
    assert_eq!(groups[31], 0b00001);
    assert!(groups.iter().all(|g| *g < 32));
}

#[test]
fn eight_bit_groups_of_known_groups() {
    let mut groups = vec![0u8; 32];
    groups[0] = 0b11111;
    groups[1] = 0b00100;
    groups[31] = 0b00001;
    let bytes = rearrange_bits_into_group_of_8(&groups);
    assert_eq!(bytes[0], 0b1111_1001);
    assert_eq!(bytes[1], 0);
    assert_eq!(bytes[19], 1);
}

#[test]
fn eight_bit_groups_ignore_high_bits_and_extra_groups() {
    let mut groups = vec![0b1110_0000u8; 40];
    groups[39] = 0xff;
    assert_eq!(rearrange_bits_into_group_of_8(&groups), [0u8; 20]);
}

#[test]
fn regrouping_round_trip() {
    let data = account().0;
    assert_eq!(rearrange_bits_into_group_of_8(&rearrange_bits_into_group_of_5(&data)), data);
    let other: [u8; 20] = [
        0xff, 0x00, 0x80, 0x01, 0x7e, 0xaa, 0x55, 0x10, 0x20, 0x40, 0x08, 0x04, 0x02, 0xfe, 0xef,
        0x13, 0x37, 0xc0, 0x0c, 0x99,
    ];
    assert_eq!(rearrange_bits_into_group_of_8(&rearrange_bits_into_group_of_5(&other)), other);
}
