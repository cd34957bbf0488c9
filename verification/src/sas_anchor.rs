//! The normative SAS anchor of the controller's security protocol: fixed inputs, and every step
//! of the short-authentication-string derivation spelled out, so anyone can follow it without
//! running it. The salt is SHA-256 of a label and the pairing nonce; HKDF-SHA-256 keyed by the
//! handshake hash expands the protocol version and both static keys into five bytes.
use vstd::prelude::*;

use crate::digest::{hex_of, hex_text, sha256, sha256_of};
use crate::text::{push_chars, push_str, string_of};

verus! {

/// HKDF-SHA-256 of the salt, input key and info, expanded to `length` bytes.
pub uninterp spec fn hkdf_sha256_of(salt: Seq<u8>, ikm: Seq<u8>, info: Seq<u8>, length: nat) -> Seq<u8>;

/// `hkdf::Hkdf::<Sha256>::new(Some(salt), ikm)` then `expand(info, ..)` into `length` bytes:
/// the bytes named `hkdf_sha256_of`. Expanding fails only past 255 SHA-256 blocks, which the
/// `requires` leaves out.
#[verifier::external_body]
fn hkdf_sha256(salt: &[u8], ikm: &[u8], info: &[u8], length: usize) -> (r: Vec<u8>)
    requires
        length <= 255 * 32,
    ensures
        r@ == hkdf_sha256_of(salt@, ikm@, info@, length as nat),
        r@.len() == length,
{
    let mut okm = vec![0u8; length];
    match hkdf::Hkdf::<sha2::Sha256>::new(Some(salt), ikm).expand(info, &mut okm) {
        Ok(()) => okm,
        Err(_) => Vec::new(),
    }
}

/// The fixture bytes that start at `start`: 32 bytes counting up from it, wrapping past 255.
pub open spec fn fixture(start: u8) -> Seq<u8> {
    Seq::new(32, |i: int| ((start + i) % 256) as u8)
}

/// The fixture bytes that start at `start`.
pub fn fixture_bytes(start: u8) -> (r: [u8; 32])
    ensures
        r@ == fixture(start),
{
    let mut out = [0u8; 32];
    let mut i: usize = 0;
    while i < 32
        invariant
            i <= 32,
            out@.len() == 32,
            forall|k: int| 0 <= k < i ==> out@[k] == ((start + k) % 256) as u8,
        decreases 32 - i,
    {
        let next = start.wrapping_add(i as u8);
        assert(next == ((start + i) % 256) as u8) by (bit_vector)
            requires
                i < 32,
                next == start.wrapping_add(i as u8);
        out.set(i, next);
        i = i + 1;
    }
    assert(out@ =~= fixture(start));
    out
}

/// The label the salt starts with: `multiplex-controller-sas-v2` and a zero byte.
pub open spec fn salt_label() -> Seq<u8> {
    seq![109u8, 117u8, 108u8, 116u8, 105u8, 112u8, 108u8, 101u8, 120u8, 45u8, 99u8, 111u8, 110u8, 116u8, 114u8, 111u8, 108u8, 108u8, 101u8, 114u8, 45u8, 115u8, 97u8, 115u8, 45u8, 118u8, 50u8, 0u8]
}

/// What the salt is the digest of: the label, then the pairing nonce.
pub open spec fn salt_input(nonce: Seq<u8>) -> Seq<u8> {
    salt_label() + nonce
}

/// What HKDF expands: `sas`, a zero byte, the protocol version's bytes, and both static public
/// keys, host first.
pub open spec fn sas_info(version: Seq<u8>, host: Seq<u8>, device: Seq<u8>) -> Seq<u8> {
    seq![115u8, 97u8, 115u8, 0u8] + version + host + device
}

/// The anchor's inputs and every value derived from them.
pub struct SasAnchor {
    pub nonce: [u8; 32],
    pub handshake_hash: [u8; 32],
    pub host: [u8; 32],
    pub device: [u8; 32],
    pub salt: Vec<u8>,
    pub info: Vec<u8>,
    pub output: Vec<u8>,
}

/// Appends `more` to `out`.
fn append(out: &mut Vec<u8>, more: &[u8])
    ensures
        final(out)@ == old(out)@ + more@,
{
    let mut i: usize = 0;
    while i < more.len()
        invariant
            i <= more@.len(),
            out@ == old(out)@ + more@.take(i as int),
        decreases more@.len() - i,
    {
        out.push(more[i]);
        proof {
            assert(more@.take(i + 1) =~= more@.take(i as int).push(more@[i as int]));
        }
        i = i + 1;
    }
    assert(more@.take(more@.len() as int) =~= more@);
}

/// Derives the anchor from its fixed inputs: the nonce, hash and keys are the fixture bytes from
/// 0x00, 0x20, 0x40 and 0x60; `version` is the protocol version's major and minor numbers in
/// big-endian bytes.
pub fn sas_anchor(version: &[u8]) -> (r: SasAnchor)
    ensures
        r.nonce@ == fixture(0x00),
        r.handshake_hash@ == fixture(0x20),
        r.host@ == fixture(0x40),
        r.device@ == fixture(0x60),
        r.salt@ == sha256_of(salt_input(fixture(0x00))),
        r.info@ == sas_info(version@, fixture(0x40), fixture(0x60)),
        r.output@ == hkdf_sha256_of(r.salt@, fixture(0x20), r.info@, 5),
        r.output@.len() == 5,
{
    let nonce = fixture_bytes(0x00);
    let hash = fixture_bytes(0x20);
    let host = fixture_bytes(0x40);
    let device = fixture_bytes(0x60);
    let mut salt_bytes: Vec<u8> = vec![109u8, 117u8, 108u8, 116u8, 105u8, 112u8, 108u8, 101u8, 120u8, 45u8, 99u8, 111u8, 110u8, 116u8, 114u8, 111u8, 108u8, 108u8, 101u8, 114u8, 45u8, 115u8, 97u8, 115u8, 45u8, 118u8, 50u8, 0u8];
    assert(salt_bytes@ =~= salt_label());
    append(&mut salt_bytes, &nonce);
    let salt = sha256(salt_bytes.as_slice());
    let mut info: Vec<u8> = vec![115u8, 97u8, 115u8, 0u8];
    append(&mut info, version);
    append(&mut info, &host);
    append(&mut info, &device);
    assert(info@ =~= sas_info(version@, host@, device@));
    let output = hkdf_sha256(salt.as_slice(), &hash, info.as_slice(), 5);
    SasAnchor { nonce, handshake_hash: hash, host, device, salt, info, output }
}

/// One `"name": "hex",` line of the anchor, indented four spaces.
pub open spec fn hex_line(name: Seq<char>, bytes: Seq<u8>) -> Seq<char> {
    "    \""@ + name + "\": \""@ + hex_text(bytes) + "\",\n"@
}

/// The anchor as the golden vectors hold it: each input and derived value in hexadecimal, then
/// the SAS as it is displayed.
pub open spec fn anchor_text(anchor: SasAnchor, sas_display: Seq<char>) -> Seq<char> {
    "  \"normative_sas_anchor\": {\n"@
        + hex_line("pairing_nonce_hex"@, anchor.nonce@)
        + hex_line("handshake_hash_hex"@, anchor.handshake_hash@)
        + hex_line("host_static_public_hex"@, anchor.host@)
        + hex_line("device_static_public_hex"@, anchor.device@)
        + hex_line("salt_hex"@, anchor.salt@)
        + hex_line("info_hex"@, anchor.info@)
        + hex_line("hkdf_output_hex"@, anchor.output@)
        + "    \"sas_display\": \""@ + sas_display + "\"\n  }"@
}

fn push_hex_line(out: &mut Vec<char>, name: &str, bytes: &[u8])
    ensures
        final(out)@ == old(out)@ + hex_line(name@, bytes@),
{
    push_str(out, "    \"");
    push_str(out, name);
    push_str(out, "\": \"");
    let digits = hex_of(bytes);
    push_chars(out, digits.as_slice());
    push_str(out, "\",\n");
    assert(out@ =~= old(out)@ + hex_line(name@, bytes@));
}

/// The anchor's entry in the golden vectors.
pub fn anchor_entry(anchor: &SasAnchor, sas_display: &str) -> (r: String)
    ensures
        r@ == anchor_text(*anchor, sas_display@),
{
    let mut out: Vec<char> = Vec::new();
    push_str(&mut out, "  \"normative_sas_anchor\": {\n");
    push_hex_line(&mut out, "pairing_nonce_hex", &anchor.nonce);
    push_hex_line(&mut out, "handshake_hash_hex", &anchor.handshake_hash);
    push_hex_line(&mut out, "host_static_public_hex", &anchor.host);
    push_hex_line(&mut out, "device_static_public_hex", &anchor.device);
    push_hex_line(&mut out, "salt_hex", anchor.salt.as_slice());
    push_hex_line(&mut out, "info_hex", anchor.info.as_slice());
    push_hex_line(&mut out, "hkdf_output_hex", anchor.output.as_slice());
    push_str(&mut out, "    \"sas_display\": \"");
    push_str(&mut out, sas_display);
    push_str(&mut out, "\"\n  }");
    assert(out@ =~= anchor_text(*anchor, sas_display@));
    string_of(out.as_slice())
}

} // verus!
