use wake_on_lan::address::AddressFormatError;
use wake_on_lan::command::{
    packet_from_arguments, usage_message, CommandError, EXIT_FAILURE, EXIT_SUCCESS,
};

fn arguments(words: &[&str]) -> Vec<String> {
    words.iter().map(|word| word.to_string()).collect()
}

#[test]
fn address_argument_gives_the_packet() {
    let packet = packet_from_arguments(&arguments(&["wol", "01:23:45:67:89:AB"])).unwrap();
    let mut expected: Vec<u8> = vec![0xFF; 6];
    for _ in 0..16 {
        expected.extend_from_slice(&[0x01, 0x23, 0x45, 0x67, 0x89, 0xAB]);
    }
    assert_eq!(packet.len(), 102);
    assert_eq!(packet, expected);
}

#[test]
fn every_separator_style_gives_the_same_packet() {
    let colons = packet_from_arguments(&arguments(&["wol", "AA:BB:CC:DD:EE:FF"]));
    let hyphens = packet_from_arguments(&arguments(&["wol", "AA-BB-CC-DD-EE-FF"]));
    let bare = packet_from_arguments(&arguments(&["wol", "AABBCCDDEEFF"]));
    assert!(colons.is_ok());
    assert_eq!(colons, hyphens);
    assert_eq!(colons, bare);
}

#[test]
fn missing_address_is_a_usage_error() {
    let result = packet_from_arguments(&arguments(&["wol"]));
    assert_eq!(result, Err(CommandError::Usage));
    assert_eq!(result.unwrap_err().message("wol"), "usage: wol <MAC address>");
}

#[test]
fn several_addresses_are_a_usage_error() {
    let result = packet_from_arguments(&arguments(&["wol", "AA:BB:CC:DD:EE:FF", "AA:BB:CC:DD:EE:FF"]));
    assert_eq!(result, Err(CommandError::Usage));
}

#[test]
fn empty_argument_list_is_a_usage_error() {
    assert_eq!(packet_from_arguments(&Vec::new()), Err(CommandError::Usage));
}

#[test]
fn usage_is_judged_before_the_address() {
    let result = packet_from_arguments(&arguments(&["wol", "not-a-mac", "ZZ"]));
    assert_eq!(result, Err(CommandError::Usage));
}

#[test]
fn text_that_is_no_address_is_rejected() {
    let result = packet_from_arguments(&arguments(&["wol", "not-a-mac"]));
    assert_eq!(result, Err(CommandError::Address(AddressFormatError::InvalidLength)));
    assert_eq!(result.unwrap_err().message("wol"), "Invalid MAC address length");
}

#[test]
fn address_with_a_bad_digit_is_rejected() {
    let result = packet_from_arguments(&arguments(&["wol", "ZZ:BB:CC:DD:EE:FF"]));
    assert_eq!(
        result,
        Err(CommandError::Address(AddressFormatError::InvalidDigit { high: 'Z', low: 'Z' }))
    );
    assert_eq!(
        result.unwrap_err().message("wol"),
        "MAC address contains an invalid hexadecimal digit ZZ"
    );
}

#[test]
fn program_name_is_not_read_as_an_address() {
    let result = packet_from_arguments(&arguments(&["AA:BB:CC:DD:EE:FF", "AA:BB:CC:DD:EE"]));
    assert_eq!(result, Err(CommandError::Address(AddressFormatError::InvalidLength)));
}

#[test]
fn usage_message_names_the_program() {
    assert_eq!(usage_message("wol"), "usage: wol <MAC address>");
    assert_eq!(usage_message("/usr/local/bin/wake"), "usage: /usr/local/bin/wake <MAC address>");
    assert_eq!(usage_message(""), "usage:  <MAC address>");
}

#[test]
fn exit_statuses() {
    assert_eq!(EXIT_SUCCESS, 0);
    assert_eq!(EXIT_FAILURE, 1);
}
