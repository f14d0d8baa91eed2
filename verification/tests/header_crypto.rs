use wow_srp::normalized_string::NormalizedString;
use wow_srp::vanilla_header::HeaderCrypto;
use wow_srp::vanilla_header::ProofSeed;

#[test]
fn verify_client_and_server_agree() {
    let session_key = [
        239, 107, 150, 237, 174, 220, 162, 4, 138, 56, 166, 166, 138, 152, 188, 146, 96, 151, 1,
        201, 202, 137, 231, 87, 203, 23, 62, 17, 7, 169, 178, 1, 51, 208, 202, 223, 26, 216, 250,
        9,
    ];

    let username = NormalizedString::new("A").unwrap();

    let client_seed = ProofSeed::new();
    let client_seed_value = client_seed.seed();
    let server_seed = ProofSeed::new();

    let (client_proof, mut client_crypto) =
        client_seed.into_client_header_crypto(&username, session_key, server_seed.seed());

    let mut server_crypto = server_seed
        .into_server_header_crypto(&username, session_key, client_proof, client_seed_value)
        .unwrap();

    let original_data = hex::decode("3d9ae196ef4f5be4df9ea8b9f4dd95fe68fe58b653cf1c2dbeaa0be167db9b27df32fd230f2eab9bd7e9b2f3fbf335d381ca").unwrap();
    let mut data = original_data.clone();

    client_crypto.encrypt(&mut data);
    server_crypto.decrypt(&mut data);

    assert_eq!(original_data, data);

    server_crypto.encrypt(&mut data);
    client_crypto.decrypt(&mut data);

    assert_eq!(original_data, data);
}

#[test]
fn verify_server_header() {
    // Real capture with 1.12 client

    let session_key = [
        239, 107, 150, 237, 174, 220, 162, 4, 138, 56, 166, 166, 138, 152, 188, 146, 96, 151, 1,
        201, 202, 137, 231, 87, 203, 23, 62, 17, 7, 169, 178, 1, 51, 208, 202, 223, 26, 216, 250,
        9,
    ];
    let client_seed = 12589856;
    let client_proof = [
        26, 97, 90, 187, 176, 134, 53, 49, 75, 160, 129, 47, 67, 207, 231, 42, 234, 184, 227, 124,
    ];
    let mut encryption = ProofSeed::from_specific_seed(0xDEADBEEF)
        .into_server_header_crypto(
            &NormalizedString::new("A").unwrap(),
            session_key,
            client_proof,
            client_seed,
        )
        .unwrap();

    let header = encryption.encrypt_server_header(12, 494);
    let expected_header = [239, 86, 206, 186];
    assert_eq!(header, expected_header);

    let header = encryption.encrypt_server_header(170, 59);
    let expected_header = [104, 222, 119, 123];
    assert_eq!(header, expected_header);

    let header = encryption.encrypt_server_header(6, 477);
    let expected_header = [5, 67, 190, 101];
    assert_eq!(header, expected_header);

    let header = encryption.encrypt_server_header(6, 477);
    let expected_header = [239, 141, 238, 129];
    assert_eq!(header, expected_header);
}

#[test]
fn verify_client_header() {
    // Real capture with 1.12 client

    let session_key = [
        9, 83, 75, 103, 5, 182, 16, 162, 170, 134, 230, 117, 11, 100, 136, 74, 88, 145, 175, 126,
        216, 48, 38, 40, 234, 116, 174, 149, 133, 20, 193, 51, 103, 223, 194, 141, 4, 191, 161,
        96,
    ];
    let client_proof = [
        102, 178, 126, 54, 19, 161, 151, 190, 103, 77, 100, 97, 155, 55, 161, 248, 99, 146, 229,
        128,
    ];
    let client_seed = 12589856;
    let mut encryption = ProofSeed::from_specific_seed(0xDEADBEEF)
        .into_server_header_crypto(
            &NormalizedString::new("A").unwrap(),
            session_key,
            client_proof,
            client_seed,
        )
        .unwrap();

    let header = [9, 96, 220, 67, 72, 254];
    let c = encryption.decrypt_client_header(header);
    let expected_size = 4;
    let expected_opcode = 55; // CMSG_CHAR_ENUM
    assert_eq!(c.opcode, expected_opcode);
    assert_eq!(c.size, expected_size);

    let expected_size = 12;
    let expected_opcode = 476; // CMSG_PING

    // Must be run through in order because the session key index is changed
    let headers = [
        [14, 188, 50, 185, 159, 20],
        [31, 135, 219, 38, 126, 15],
        [190, 48, 52, 101, 139, 179],
    ];
    for header in headers.iter() {
        let c = encryption.decrypt_client_header(*header);
        assert_eq!(c.opcode, expected_opcode);
        assert_eq!(c.size, expected_size);
    }
}

#[test]
fn verify_login() {
    let session_key = [
        115, 0, 100, 222, 18, 15, 156, 194, 27, 1, 216, 229, 165, 207, 78, 233, 183, 241, 248, 73,
        190, 142, 14, 89, 44, 235, 153, 190, 103, 206, 34, 88, 45, 199, 104, 175, 79, 108, 93, 48,
    ];
    let username = NormalizedString::new("A").unwrap();
    let server_seed = 0xDEADBEEF;
    let client_seed = 1266519981;
    let client_proof = [
        202, 54, 102, 180, 90, 87, 9, 107, 217, 97, 235, 56, 221, 203, 108, 19, 109, 141, 137, 7,
    ];

    let seed = ProofSeed::from_specific_seed(server_seed);
    let encryption =
        seed.into_server_header_crypto(&username, session_key, client_proof, client_seed);
    assert!(encryption.is_ok());
}

#[test]
fn verify_mixed_used() {
    // Verify that mixed use does not interfere with each other

    let session_key = hex::decode(
        "2EFEE7B0C177EBBDFF6676C56EFC2339BE9CAD14BF8B54BB5A86FBF81F6D424AA23CC9A3149FB175",
    )
    .unwrap();
    let session_key: [u8; 40] = session_key.try_into().unwrap();

    let original_data = hex::decode("3d9ae196ef4f5be4df9ea8b9f4dd95fe68fe58b653cf1c2dbeaa0be167db9b27df32fd230f2eab9bd7e9b2f3fbf335d381ca").unwrap();
    let mut encrypt_data = original_data.clone();
    let mut decrypt_data = original_data.clone();

    let client_proof = [
        171, 16, 181, 52, 139, 193, 19, 213, 173, 100, 0, 37, 65, 184, 70, 148, 36, 169, 17, 228,
    ];

    let mut encryption = ProofSeed::from_specific_seed(0xDEADBEEF)
        .into_server_header_crypto(
            &NormalizedString::new("A").unwrap(),
            session_key,
            client_proof,
            0,
        )
        .unwrap();
    const STEP: usize = 10;
    for i in (0..original_data.len()).step_by(STEP) {
        // Ensure that encrypting, then decrypting doesn't change how encryption works
        let mut enc_chunk = encrypt_data[i..i + STEP].to_vec();
        encryption.encrypt(&mut enc_chunk);
        encrypt_data[i..i + STEP].copy_from_slice(&enc_chunk);

        let mut dec_chunk = decrypt_data[i..i + STEP].to_vec();
        encryption.decrypt(&mut dec_chunk);
        decrypt_data[i..i + STEP].copy_from_slice(&dec_chunk);
    }

    let expected_decrypt = hex::decode("13a3a0059817e73404d97cd455159b50d40af74a22f719aacb6a9a2e991982c61a6f0285f880cc8512ec2ef1c98fa923512f").unwrap();
    let expected_encrypt = hex::decode("13777da3d109b912322a08841e3ff5bc92f4e98b77bb03997da999b22ae0b926a3b1e56580314b3932499ee11b9f7deb6915").unwrap();
    assert_eq!(
        expected_decrypt, decrypt_data,
        "Original data: {:?}, expected: {:?}, got: {:?}",
        original_data, expected_decrypt, decrypt_data
    );
    assert_eq!(
        expected_encrypt, encrypt_data,
        "Original data: {:?}, expected: {:?}, got: {:?}",
        original_data, expected_encrypt, encrypt_data
    );
}

#[test]
fn verify_splitting() {
    // Verify that splitting and combining again works
    let session_key = hex::decode(
        "2EFEE7B0C177EBBDFF6676C56EFC2339BE9CAD14BF8B54BB5A86FBF81F6D424AA23CC9A3149FB175",
    )
    .unwrap();
    let session_key: [u8; 40] = session_key.try_into().unwrap();

    let original_data = hex::decode("3d9ae196ef4f5be4df9ea8b9f4dd95fe68fe58b653cf1c2dbeaa0be167db9b27df32fd230f2eab9bd7e9b2f3fbf335d381ca").unwrap();
    let mut encrypt_data = original_data.clone();
    let mut decrypt_data = original_data.clone();

    let client_proof = [
        171, 16, 181, 52, 139, 193, 19, 213, 173, 100, 0, 37, 65, 184, 70, 148, 36, 169, 17, 228,
    ];

    let mut encryption = ProofSeed::from_specific_seed(0xDEADBEEF)
        .into_server_header_crypto(
            &NormalizedString::new("A").unwrap(),
            session_key,
            client_proof,
            0,
        )
        .unwrap();

    const STEP: usize = 20;
    let mut enc_chunk = encrypt_data[0..STEP].to_vec();
    encryption.encrypt(&mut enc_chunk);
    encrypt_data[0..STEP].copy_from_slice(&enc_chunk);
    let mut dec_chunk = decrypt_data[0..STEP].to_vec();
    encryption.decrypt(&mut dec_chunk);
    decrypt_data[0..STEP].copy_from_slice(&dec_chunk);

    let (mut e, mut d) = encryption.split();
    let mut enc_chunk = encrypt_data[STEP..STEP * 2].to_vec();
    e.encrypt(&mut enc_chunk);
    encrypt_data[STEP..STEP * 2].copy_from_slice(&enc_chunk);
    let mut dec_chunk = decrypt_data[STEP..STEP * 2].to_vec();
    d.decrypt(&mut dec_chunk);
    decrypt_data[STEP..STEP * 2].copy_from_slice(&dec_chunk);

    let mut encryption = e.unsplit(d).unwrap();

    let mut enc_chunk = encrypt_data[STEP * 2..].to_vec();
    encryption.encrypt(&mut enc_chunk);
    encrypt_data[STEP * 2..].copy_from_slice(&enc_chunk);
    let mut dec_chunk = decrypt_data[STEP * 2..].to_vec();
    encryption.decrypt(&mut dec_chunk);
    decrypt_data[STEP * 2..].copy_from_slice(&dec_chunk);

    let expected_decrypt = hex::decode("13a3a0059817e73404d97cd455159b50d40af74a22f719aacb6a9a2e991982c61a6f0285f880cc8512ec2ef1c98fa923512f").unwrap();
    let expected_encrypt = hex::decode("13777da3d109b912322a08841e3ff5bc92f4e98b77bb03997da999b22ae0b926a3b1e56580314b3932499ee11b9f7deb6915").unwrap();
    assert_eq!(
        expected_decrypt, decrypt_data,
        "Original data: {:?}, expected: {:?}, got: {:?}",
        original_data, expected_decrypt, decrypt_data
    );
    assert_eq!(
        expected_encrypt, encrypt_data,
        "Original data: {:?}, expected: {:?}, got: {:?}",
        original_data, expected_encrypt, encrypt_data
    );
}

#[test]
fn verify_trait_helpers() {
    // Verify that the trait helpers do the same thing as manually encrypting/decrypting
    let session_key = hex::decode(
        "2EFEE7B0C177EBBDFF6676C56EFC2339BE9CAD14BF8B54BB5A86FBF81F6D424AA23CC9A3149FB175",
    )
    .unwrap();
    let session_key: [u8; 40] = session_key.try_into().unwrap();

    let original_data = [
        0x3d, 0x9a, 0xe1, 0x96, 0xef, 0x4f, 0x3d, 0x9a, 0xe1, 0x96, 0x3d, 0x9a, 0xe1, 0x96, 0xef,
        0x4f, 0x3d, 0x9a, 0xe1, 0x96,
    ];
    let mut encrypt_data = original_data.to_vec();
    let mut encrypted_data = Vec::new();
    let mut decrypt_data = original_data.to_vec();
    let decrypted_data = original_data.to_vec();

    let client_proof = [
        171, 16, 181, 52, 139, 193, 19, 213, 173, 100, 0, 37, 65, 184, 70, 148, 36, 169, 17, 228,
    ];

    let mut encryption = ProofSeed::from_specific_seed(0xDEADBEEF)
        .into_server_header_crypto(
            &NormalizedString::new("A").unwrap(),
            session_key,
            client_proof,
            0,
        )
        .unwrap();
    let mut helper_encryption = ProofSeed::from_specific_seed(0xDEADBEEF)
        .into_server_header_crypto(
            &NormalizedString::new("A").unwrap(),
            session_key,
            client_proof,
            0,
        )
        .unwrap();

    encryption
        .write_encrypted_client_header(&mut encrypted_data, 0x3d9a, 0x4fef96e1)
        .unwrap();
    encryption
        .write_encrypted_server_header(&mut encrypted_data, 0x3d9a, 0x96e1)
        .unwrap();
    encrypted_data.append(
        &mut encryption
            .encrypt_client_header(0x3d9a, 0x4fef96e1)
            .to_vec(),
    );
    encrypted_data.append(&mut encryption.encrypt_server_header(0x3d9a, 0x96e1).to_vec());
    helper_encryption.encrypt(&mut encrypt_data);
    assert_eq!(encrypted_data, encrypt_data);

    encryption.decrypt(&mut decrypt_data);
    let c = helper_encryption
        .read_and_decrypt_client_header(&mut decrypted_data[0..6].to_vec().as_slice())
        .unwrap();
    assert_eq!(
        c.size,
        u16::from_be_bytes(decrypt_data[0..2].try_into().unwrap())
    );
    assert_eq!(
        c.opcode,
        u32::from_le_bytes(decrypt_data[2..6].try_into().unwrap())
    );
    let s = helper_encryption
        .read_and_decrypt_server_header(&mut decrypted_data[6..10].to_vec().as_slice())
        .unwrap();
    assert_eq!(
        s.size,
        u16::from_be_bytes(decrypt_data[6..8].try_into().unwrap())
    );
    assert_eq!(
        s.opcode,
        u16::from_le_bytes(decrypt_data[8..10].try_into().unwrap())
    );
    let c = helper_encryption.decrypt_client_header(decrypted_data[10..16].try_into().unwrap());
    assert_eq!(
        c.size,
        u16::from_be_bytes(decrypt_data[10..12].try_into().unwrap())
    );
    assert_eq!(
        c.opcode,
        u32::from_le_bytes(decrypt_data[12..16].try_into().unwrap())
    );
    let s = helper_encryption.decrypt_server_header(decrypted_data[16..20].try_into().unwrap());
    assert_eq!(
        s.size,
        u16::from_be_bytes(decrypt_data[16..18].try_into().unwrap())
    );
    assert_eq!(
        s.opcode,
        u16::from_le_bytes(decrypt_data[18..20].try_into().unwrap())
    );
}

#[test]
fn round_trip_whole_and_chunked() {
    let session_key = [
        239, 107, 150, 237, 174, 220, 162, 4, 138, 56, 166, 166, 138, 152, 188, 146, 96, 151, 1,
        201, 202, 137, 231, 87, 203, 23, 62, 17, 7, 169, 178, 1, 51, 208, 202, 223, 26, 216, 250,
        9,
    ];
    let original: Vec<u8> = (0u8..=255).collect();

    // Whole-buffer round trip through freshly constructed same-key ciphers.
    let mut enc_side = HeaderCrypto::new(session_key);
    let mut dec_side = HeaderCrypto::new(session_key);
    let mut data = original.clone();
    enc_side.encrypt(&mut data);
    assert_ne!(original, data);
    dec_side.decrypt(&mut data);
    assert_eq!(original, data);

    // Chunked processing at every split point equals whole-buffer processing.
    let mut whole = original.clone();
    HeaderCrypto::new(session_key).encrypt(&mut whole);
    for split_point in [0usize, 1, 19, 20, 21, 128, 255, 256] {
        let mut first = original[..split_point].to_vec();
        let mut second = original[split_point..].to_vec();
        let mut crypto = HeaderCrypto::new(session_key);
        crypto.encrypt(&mut first);
        crypto.encrypt(&mut second);
        first.extend_from_slice(&second);
        assert_eq!(whole, first);
    }
}

#[test]
fn split_halves_do_not_perturb_each_other() {
    let session_key = [
        239, 107, 150, 237, 174, 220, 162, 4, 138, 56, 166, 166, 138, 152, 188, 146, 96, 151, 1,
        201, 202, 137, 231, 87, 203, 23, 62, 17, 7, 169, 178, 1, 51, 208, 202, 223, 26, 216, 250,
        9,
    ];
    let original: Vec<u8> = (1u8..=100).collect();

    // Encrypt through a combined object, then let its split-off decrypter
    // decrypt, after the encrypter half has processed unrelated bytes.
    let mut sender = HeaderCrypto::new(session_key);
    let mut data = original.clone();
    sender.encrypt(&mut data);

    let receiver = HeaderCrypto::new(session_key);
    let (mut unrelated_enc, mut dec) = receiver.split();
    let mut noise = vec![0xAAu8; 37];
    unrelated_enc.encrypt(&mut noise);

    dec.decrypt(&mut data);
    assert_eq!(original, data);
}

#[test]
fn proof_mismatch_is_rejected() {
    let session_key = [
        115, 0, 100, 222, 18, 15, 156, 194, 27, 1, 216, 229, 165, 207, 78, 233, 183, 241, 248, 73,
        190, 142, 14, 89, 44, 235, 153, 190, 103, 206, 34, 88, 45, 199, 104, 175, 79, 108, 93, 48,
    ];
    let username = NormalizedString::new("A").unwrap();
    // One byte flipped in an otherwise valid proof (first byte of the
    // verify_login capture).
    let client_proof = [
        203, 54, 102, 180, 90, 87, 9, 107, 217, 97, 235, 56, 221, 203, 108, 19, 109, 141, 137, 7,
    ];

    let seed = ProofSeed::from_specific_seed(0xDEADBEEF);
    let result = seed.into_server_header_crypto(&username, session_key, client_proof, 1266519981);
    let err = result.err().unwrap();
    assert_eq!(err.client_proof, client_proof);
    assert_ne!(err.server_proof, client_proof);
}

#[test]
fn unsplit_with_unrelated_half_is_rejected() {
    let key_a = [1u8; 40];
    let key_b = [2u8; 40];

    let (enc_a, dec_a) = HeaderCrypto::new(key_a).split();
    let (enc_b, dec_b) = HeaderCrypto::new(key_b).split();

    assert!(!enc_a.is_pair_of(&dec_b));
    assert!(enc_a.unsplit(dec_b).is_err());
    assert!(enc_b.unsplit(dec_a).is_err());

    // Reassembling a matching pair must still work.
    let (enc_a2, dec_a2) = HeaderCrypto::new(key_a).split();
    assert!(enc_a2.is_pair_of(&dec_a2));
    assert!(enc_a2.unsplit(dec_a2).is_ok());
}

#[test]
fn normalized_string_validation() {
    assert!(NormalizedString::new("A").is_some());
    assert!(NormalizedString::new("Player1").is_some());
    assert!(NormalizedString::new("ABCDEFGHIJKLMNOP").is_some());

    assert!(NormalizedString::new("").is_none());
    assert!(NormalizedString::new("ABCDEFGHIJKLMNOPQ").is_none());
    assert!(NormalizedString::new("bad name").is_none());
    assert!(NormalizedString::new("semi;colon").is_none());
}

#[test]
fn header_codec_extreme_values() {
    let session_key = [3u8; 40];

    let mut enc_side = HeaderCrypto::new(session_key);
    let mut dec_side = HeaderCrypto::new(session_key);

    let wire = enc_side.encrypt_client_header(0xFFFF, 0xFFFF_FFFF);
    let c = dec_side.decrypt_client_header(wire);
    assert_eq!(c.size, 0xFFFF);
    assert_eq!(c.opcode, 0xFFFF_FFFF);

    let wire = enc_side.encrypt_server_header(0, 0);
    let s = dec_side.decrypt_server_header(wire);
    assert_eq!(s.size, 0);
    assert_eq!(s.opcode, 0);
}

#[test]
fn server_header_wire_layout_is_size_be_opcode_le() {
    let session_key = [3u8; 40];

    // Encrypting the header (size 0x0102, opcode 0x0304) must equal
    // encrypting the literal bytes [size BE, opcode LE].
    let mut literal = vec![0x01, 0x02, 0x04, 0x03];
    HeaderCrypto::new(session_key).encrypt(&mut literal);
    let header = HeaderCrypto::new(session_key).encrypt_server_header(0x0102, 0x0304);
    assert_eq!(literal, header.to_vec());
}
