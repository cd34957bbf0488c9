use multiplex::sas_anchor::{anchor_entry, fixture_bytes, sas_anchor};
use sha2::{Digest, Sha256};

fn hex(bytes: &[u8]) -> String {
    bytes.iter().map(|byte| format!("{byte:02x}")).collect()
}

#[test]
fn fixture_bytes_count_up_and_wrap() {
    let bytes = fixture_bytes(0xf0);
    assert_eq!(bytes[0], 0xf0);
    assert_eq!(bytes[15], 0xff);
    assert_eq!(bytes[16], 0x00);
    assert_eq!(bytes[31], 0x0f);
    assert_eq!(fixture_bytes(0x20)[1], 0x21);
}

#[test]
fn the_anchor_salt_info_and_output_follow_the_derivation() {
    let version = [0u8, 2, 0, 0];
    let anchor = sas_anchor(&version);
    let mut salt_input = b"multiplex-controller-sas-v2\0".to_vec();
    salt_input.extend_from_slice(&fixture_bytes(0x00));
    let salt = Sha256::digest(&salt_input);
    assert_eq!(anchor.salt, salt.to_vec());
    let mut info = b"sas\0".to_vec();
    info.extend_from_slice(&version);
    info.extend_from_slice(&fixture_bytes(0x40));
    info.extend_from_slice(&fixture_bytes(0x60));
    assert_eq!(anchor.info, info);
    let mut output = [0u8; 5];
    hkdf::Hkdf::<Sha256>::new(Some(&salt), &fixture_bytes(0x20))
        .expand(&info, &mut output)
        .unwrap();
    assert_eq!(anchor.output, output.to_vec());
    assert_ne!(anchor.output, info[..5].to_vec());
}

#[test]
fn the_anchor_entry_lists_every_step_in_hexadecimal() {
    let anchor = sas_anchor(&[0, 2, 0, 0]);
    let entry = anchor_entry(&anchor, "12345");
    assert!(entry.starts_with("  \"normative_sas_anchor\": {\n    \"pairing_nonce_hex\": \"000102"));
    assert!(entry.contains(&format!("    \"salt_hex\": \"{}\",\n", hex(&anchor.salt))));
    assert!(entry.contains("    \"info_hex\": \"73617300000200004041"));
    assert!(entry.ends_with("    \"sas_display\": \"12345\"\n  }"));
}
