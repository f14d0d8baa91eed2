use hmac::Mac;
use wow_srp::tbc_header::DecrypterHalf;

// The keystream for this protocol generation: HMAC-SHA-1 of the session
// key under the fixed public salt.
fn derived_key(session_key: &[u8; 40]) -> [u8; 20] {
    let salt = [
        0x38, 0xA7, 0x83, 0x15, 0xF8, 0x92, 0x25, 0x30, 0x71, 0x98, 0x67, 0xB1, 0x8C, 0x04, 0xE2,
        0xAA,
    ];
    let mut mac: hmac::Hmac<sha1::Sha1> = hmac::Hmac::new_from_slice(&salt).unwrap();
    mac.update(session_key);
    mac.finalize().into_bytes().into()
}

// Encrypts with the inverse of the decrypt step, computed here by hand, so
// that the decrypter must both derive the right key and run the right
// arithmetic to pass.
fn encrypt_by_hand(data: &mut [u8], key: &[u8; 20]) {
    let mut index: usize = 0;
    let mut previous_value: u8 = 0;
    for byte in data {
        let encrypted = (*byte ^ key[index]).wrapping_add(previous_value);
        index = (index + 1) % key.len();
        previous_value = encrypted;
        *byte = encrypted;
    }
}

#[test]
fn tbc_decrypter_round_trips_derived_key_cipher() {
    let session_key = [
        239, 107, 150, 237, 174, 220, 162, 4, 138, 56, 166, 166, 138, 152, 188, 146, 96, 151, 1,
        201, 202, 137, 231, 87, 203, 23, 62, 17, 7, 169, 178, 1, 51, 208, 202, 223, 26, 216, 250,
        9,
    ];
    let key = derived_key(&session_key);

    let original: Vec<u8> = (0u8..50).collect();
    let mut data = original.clone();
    encrypt_by_hand(&mut data, &key);
    assert_ne!(original, data);

    let mut decrypter = DecrypterHalf::new(session_key);
    decrypter.decrypt(&mut data);
    assert_eq!(original, data);
}

#[test]
fn tbc_decrypter_decodes_headers() {
    let session_key = [7u8; 40];
    let key = derived_key(&session_key);

    // A server header (size 258, opcode 0x0403) followed by a client
    // header (size 513, opcode 0x08070605), encrypted as one stream.
    let mut stream = vec![1, 2, 3, 4, 2, 1, 5, 6, 7, 8];
    encrypt_by_hand(&mut stream, &key);

    let mut decrypter = DecrypterHalf::new(session_key);
    let server = decrypter.decrypt_server_header(stream[0..4].try_into().unwrap());
    assert_eq!(server.size, 258);
    assert_eq!(server.opcode, 0x0403);

    let client = decrypter
        .read_and_decrypt_client_header(&mut &stream[4..10])
        .unwrap();
    assert_eq!(client.size, 513);
    assert_eq!(client.opcode, 0x08070605);
}
