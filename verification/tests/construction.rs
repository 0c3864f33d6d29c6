//! The AEAD construction: sealing, opening, and what relates them.

use chacha20_poly1305::aead::{
    aead, chacha20_poly1305_init, chacha20_poly1305_open, chacha20_poly1305_seal,
    derive_poly1305_key, poly1305_update_padded_16, Algorithm, Direction, Key, CHACHA20_POLY1305,
    MAX_INPUT_LEN,
};
use chacha20_poly1305::block::Block;
use chacha20_poly1305::chacha::Counter;
use chacha20_poly1305::error::Unspecified;
use chacha20_poly1305::poly1305;

fn pattern(multiplier: usize, offset: usize, len: usize) -> Vec<u8> {
    (0..len).map(|i| ((i * multiplier + offset) % 256) as u8).collect()
}

fn squares(len: usize) -> Vec<u8> {
    (0..len).map(|i| ((i * i + 7) % 256) as u8).collect()
}

fn test_key() -> Key {
    chacha20_poly1305_init(&pattern(7, 3, 32)).unwrap()
}

fn test_nonce() -> [u8; 12] {
    let mut nonce = [0u8; 12];
    nonce.copy_from_slice(&pattern(11, 1, 12));
    nonce
}

#[test]
fn init_accepts_thirty_two_bytes() {
    assert!(chacha20_poly1305_init(&[0u8; 32]).is_ok());
    assert!(CHACHA20_POLY1305.init(&[0u8; 32]).is_ok());
}

#[test]
fn init_rejects_every_other_length() {
    for len in [0usize, 1, 16, 31, 33, 64] {
        let key = vec![0u8; len];
        assert_eq!(chacha20_poly1305_init(&key).err(), Some(Unspecified));
        assert_eq!(CHACHA20_POLY1305.init(&key).err(), Some(Unspecified));
    }
}

#[test]
fn descriptor_limits() {
    assert_eq!(CHACHA20_POLY1305.key_len(), 32);
    assert_eq!(CHACHA20_POLY1305.max_input_len(), ((1u64 << 32) - 1) * 64);
    assert_eq!(CHACHA20_POLY1305.max_input_len(), (1u64 << 38) - 64);
    assert_eq!(MAX_INPUT_LEN, 274_877_906_880u64);
    assert_eq!(CHACHA20_POLY1305, Algorithm::ChaCha20Poly1305);
}

#[test]
fn descriptor_operations_are_the_functions() {
    let nonce = test_nonce();
    let aad = pattern(5, 0, 20);
    let plaintext = pattern(3, 1, 100);

    let mut by_function = plaintext.clone();
    let function_tag =
        chacha20_poly1305_seal(&test_key(), &nonce, &aad, &mut by_function).unwrap();
    let mut by_descriptor = plaintext.clone();
    let key = CHACHA20_POLY1305.init(&pattern(7, 3, 32)).unwrap();
    let descriptor_tag = CHACHA20_POLY1305.seal(&key, &nonce, &aad, &mut by_descriptor).unwrap();
    assert_eq!(by_function, by_descriptor);
    assert_eq!(function_tag.0, descriptor_tag.0);

    let mut in_out = vec![0xaau8; 5];
    in_out.extend_from_slice(&by_descriptor);
    let opened_tag = CHACHA20_POLY1305.open(&key, &nonce, &aad, 5, &mut in_out).unwrap();
    assert_eq!(&in_out[..100], &plaintext[..]);
    assert_eq!(opened_tag.0, descriptor_tag.0);
}

// Associated data and plaintext that need no padding.
#[test]
fn seal_whole_blocks() {
    let mut in_out = pattern(3, 1, 32);
    let tag =
        chacha20_poly1305_seal(&test_key(), &test_nonce(), &pattern(5, 0, 16), &mut in_out)
            .unwrap();
    assert_eq!(
        in_out,
        vec![
            0x71, 0x2c, 0x8c, 0x61, 0x67, 0x7b, 0x35, 0x03, 0x95, 0xcf, 0x6c, 0xed, 0x3b, 0x1c,
            0x7c, 0x49, 0xf2, 0x1a, 0xfa, 0x5e, 0xa5, 0x68, 0x6a, 0xc3, 0x7b, 0xe2, 0x29, 0x31,
            0x4f, 0xc4, 0x3e, 0x7f,
        ]
    );
    assert_eq!(
        tag.0,
        [
            0x89, 0x11, 0xe5, 0x82, 0x43, 0x57, 0x7f, 0x24, 0x0f, 0xd1, 0xe3, 0x5b, 0xb2, 0x66,
            0xc8, 0x40,
        ]
    );
}

// A plaintext of several keystream blocks, with a last block that is not full.
#[test]
fn seal_across_keystream_blocks() {
    let mut in_out = squares(300);
    let tag =
        chacha20_poly1305_seal(&test_key(), &test_nonce(), &pattern(1, 0, 33), &mut in_out)
            .unwrap();
    assert_eq!(in_out.len(), 300);
    assert_eq!(
        &in_out[..16],
        &[
            0x77, 0x20, 0x80, 0x7b, 0x7d, 0x4b, 0x0d, 0x2d, 0xcb, 0x8b, 0x18, 0x4f, 0x89, 0x84,
            0x9c, 0x8f,
        ]
    );
    // The bytes on both sides of each change of keystream block.
    assert_eq!(&in_out[62..66], &[0x3c, 0x2c, 0xe3, 0xe6]);
    assert_eq!(&in_out[126..130], &[0xdd, 0xcc, 0xee, 0xd5]);
    assert_eq!(&in_out[190..194], &[0xef, 0x07, 0xd1, 0x6d]);
    assert_eq!(&in_out[254..258], &[0x0a, 0xa9, 0xb8, 0xbb]);
    assert_eq!(
        &in_out[288..],
        &[0x6d, 0x4a, 0xa3, 0x0d, 0x69, 0xe6, 0x88, 0x7a, 0x3c, 0x47, 0xc4, 0x72]
    );
    assert_eq!(
        tag.0,
        [
            0x8a, 0x17, 0x1f, 0x28, 0x1b, 0xfd, 0x48, 0xaa, 0x9f, 0x22, 0xef, 0x65, 0x5b, 0xff,
            0x52, 0x9e,
        ]
    );
}

#[test]
fn seal_nothing_at_all() {
    let key = chacha20_poly1305_init(&pattern(1, 0x80, 32)).unwrap();
    let nonce = [0x07, 0, 0, 0, 0x40, 0x41, 0x42, 0x43, 0x44, 0x45, 0x46, 0x47];
    let mut in_out: Vec<u8> = Vec::new();
    let tag = chacha20_poly1305_seal(&key, &nonce, &[], &mut in_out).unwrap();
    assert!(in_out.is_empty());
    assert_eq!(tag.0.len(), 16);
    assert_eq!(
        tag.0,
        [
            0xa0, 0x78, 0x4d, 0x7a, 0x47, 0x16, 0xf3, 0xfe, 0xb4, 0xf6, 0x4e, 0x7f, 0x4b, 0x39,
            0xbf, 0x04,
        ]
    );
}

#[test]
fn seal_associated_data_alone() {
    let key = chacha20_poly1305_init(&pattern(1, 0x80, 32)).unwrap();
    let nonce = [0x07, 0, 0, 0, 0x40, 0x41, 0x42, 0x43, 0x44, 0x45, 0x46, 0x47];
    let aad = [0x50, 0x51, 0x52, 0x53, 0xc0, 0xc1, 0xc2, 0xc3, 0xc4, 0xc5, 0xc6, 0xc7];
    let mut in_out: Vec<u8> = Vec::new();
    let tag = chacha20_poly1305_seal(&key, &nonce, &aad, &mut in_out).unwrap();
    assert_eq!(
        tag.0,
        [
            0xe6, 0x22, 0xe5, 0x64, 0x7a, 0x38, 0xd9, 0x67, 0xa7, 0xec, 0xbc, 0xb4, 0x6c, 0x7f,
            0x67, 0x5c,
        ]
    );
}

#[test]
fn open_returns_what_seal_took() {
    let key = test_key();
    let nonce = test_nonce();
    for len in [0usize, 1, 15, 16, 17, 31, 32, 63, 64, 65, 127, 128, 129, 500] {
        for aad_len in [0usize, 1, 16, 33] {
            let plaintext = squares(len);
            let aad = pattern(9, 2, aad_len);
            let mut in_out = plaintext.clone();
            let sealed_tag = chacha20_poly1305_seal(&key, &nonce, &aad, &mut in_out).unwrap();
            assert_eq!(in_out.len(), len);
            if len >= 8 {
                assert_ne!(in_out, plaintext);
            }
            let opened_tag = chacha20_poly1305_open(&key, &nonce, &aad, 0, &mut in_out).unwrap();
            assert_eq!(in_out, plaintext);
            assert_eq!(opened_tag.0, sealed_tag.0);
        }
    }
}

#[test]
fn tags_have_sixteen_bytes() {
    let key = test_key();
    let nonce = test_nonce();
    for len in [0usize, 1, 16, 100] {
        let mut in_out = vec![0u8; len];
        let tag = chacha20_poly1305_seal(&key, &nonce, &[], &mut in_out).unwrap();
        assert_eq!(tag.0.len(), 16);
        let tag = chacha20_poly1305_open(&key, &nonce, &[], 0, &mut in_out).unwrap();
        assert_eq!(tag.0.len(), 16);
    }
}

#[test]
fn another_nonce_gives_another_ciphertext_and_tag() {
    let key = test_key();
    let plaintext = pattern(3, 1, 64);
    let mut first = plaintext.clone();
    let first_tag = chacha20_poly1305_seal(&key, &[1u8; 12], &[], &mut first).unwrap();
    let mut second = plaintext.clone();
    let second_tag = chacha20_poly1305_seal(&key, &[2u8; 12], &[], &mut second).unwrap();
    assert_ne!(first, second);
    assert_ne!(first_tag.0, second_tag.0);
}

#[test]
fn another_key_gives_another_ciphertext_and_tag() {
    let nonce = test_nonce();
    let plaintext = pattern(3, 1, 64);
    let mut first = plaintext.clone();
    let first_tag = chacha20_poly1305_seal(&test_key(), &nonce, &[], &mut first).unwrap();
    let other = chacha20_poly1305_init(&pattern(7, 4, 32)).unwrap();
    let mut second = plaintext.clone();
    let second_tag = chacha20_poly1305_seal(&other, &nonce, &[], &mut second).unwrap();
    assert_ne!(first, second);
    assert_ne!(first_tag.0, second_tag.0);
}

// The tag covers the associated data and each of the two lengths.
#[test]
fn tag_depends_on_associated_data_and_on_where_it_ends() {
    let key = test_key();
    let nonce = test_nonce();
    let tag_for = |aad: &[u8], plaintext: &[u8]| {
        let mut in_out = plaintext.to_vec();
        chacha20_poly1305_seal(&key, &nonce, aad, &mut in_out).unwrap().0
    };
    assert_ne!(tag_for(&[1, 2, 3], &[9; 20]), tag_for(&[1, 2, 4], &[9; 20]));
    // Padding makes these two inputs read alike but for the lengths.
    assert_ne!(tag_for(&[1, 2, 3], &[9; 20]), tag_for(&[1, 2, 3, 0], &[9; 20]));
    assert_ne!(tag_for(&[], &[]), tag_for(&[0], &[]));
}

// Opening authenticates the ciphertext it is given, not the plaintext it
// makes of it: the tag is the authenticator's tag of the ciphertext.
#[test]
fn open_authenticates_ciphertext_not_plaintext() {
    let key = test_key();
    let nonce = test_nonce();
    let aad = pattern(5, 0, 7);
    let plaintext = pattern(3, 1, 45);

    let mut in_out = plaintext.clone();
    let sealed_tag = chacha20_poly1305_seal(&key, &nonce, &aad, &mut in_out).unwrap();
    let ciphertext = in_out.clone();

    let by_hand = |data: &[u8]| {
        let mut counter = Counter::zero(&nonce);
        let mut ctx = poly1305::Context::from_key(derive_poly1305_key(&key, counter.increment()));
        poly1305_update_padded_16(&mut ctx, &aad);
        poly1305_update_padded_16(&mut ctx, data);
        ctx.update_block(Block::from_u64_le(aad.len() as u64, data.len() as u64));
        ctx.finish().0
    };
    let over_ciphertext = by_hand(&ciphertext);
    let over_plaintext = by_hand(&plaintext);
    assert_ne!(over_ciphertext, over_plaintext);

    let opened_tag = chacha20_poly1305_open(&key, &nonce, &aad, 0, &mut in_out).unwrap();
    assert_eq!(in_out, plaintext);
    assert_eq!(opened_tag.0, over_ciphertext);
    assert_eq!(opened_tag.0, sealed_tag.0);
    assert_ne!(opened_tag.0, over_plaintext);
}

// A ciphertext that was changed opens to another tag than the one sealed.
#[test]
fn open_of_altered_ciphertext_gives_another_tag() {
    let key = test_key();
    let nonce = test_nonce();
    let plaintext = pattern(3, 1, 45);
    let mut in_out = plaintext.clone();
    let sealed_tag = chacha20_poly1305_seal(&key, &nonce, &[], &mut in_out).unwrap();
    for place in [0usize, 20, 44] {
        let mut altered = in_out.clone();
        altered[place] ^= 0x01;
        let tag = chacha20_poly1305_open(&key, &nonce, &[], 0, &mut altered).unwrap();
        assert_ne!(tag.0, sealed_tag.0);
        // The cipher alone does not notice: all other bytes decrypt as before.
        let mut expected = plaintext.clone();
        expected[place] ^= 0x01;
        assert_eq!(altered, expected);
    }
}

#[test]
fn open_strips_the_prefix() {
    let key = test_key();
    let nonce = test_nonce();
    let aad = pattern(5, 0, 9);
    for len in [0usize, 1, 15, 16, 63, 64, 65, 200] {
        for prefix_len in [1usize, 3, 16, 64, 70] {
            let plaintext = squares(len);
            let mut ciphertext = plaintext.clone();
            let sealed_tag = chacha20_poly1305_seal(&key, &nonce, &aad, &mut ciphertext).unwrap();

            let mut in_out = pattern(13, 5, prefix_len);
            in_out.extend_from_slice(&ciphertext);
            let before = in_out.clone();
            let tag = chacha20_poly1305_open(&key, &nonce, &aad, prefix_len, &mut in_out).unwrap();
            assert_eq!(tag.0, sealed_tag.0);
            assert_eq!(in_out.len(), prefix_len + len);
            assert_eq!(&in_out[..len], &plaintext[..]);
            // Behind the plaintext the buffer is as it was.
            assert_eq!(&in_out[len..], &before[len..]);
        }
    }
}

#[test]
fn open_of_a_buffer_that_is_all_prefix() {
    let key = test_key();
    let nonce = test_nonce();
    let mut sealed_nothing: Vec<u8> = Vec::new();
    let sealed_tag = chacha20_poly1305_seal(&key, &nonce, &[1], &mut sealed_nothing).unwrap();
    let mut in_out = vec![1u8, 2, 3, 4];
    let tag = chacha20_poly1305_open(&key, &nonce, &[1], 4, &mut in_out).unwrap();
    assert_eq!(in_out, vec![1u8, 2, 3, 4]);
    assert_eq!(tag.0, sealed_tag.0);
}

#[test]
fn aead_follows_the_direction() {
    let key = test_key();
    let nonce = test_nonce();
    let aad = pattern(5, 0, 9);
    let plaintext = squares(90);

    let mut by_seal = plaintext.clone();
    let seal_tag = chacha20_poly1305_seal(&key, &nonce, &aad, &mut by_seal).unwrap();
    let mut by_aead = plaintext.clone();
    let aead_tag = aead(&key, &nonce, &aad, &mut by_aead, Direction::Sealing);
    assert_eq!(by_aead, by_seal);
    assert_eq!(aead_tag.0, seal_tag.0);

    let mut in_out = vec![0u8; 2];
    in_out.extend_from_slice(&by_seal);
    let tag = aead(&key, &nonce, &aad, &mut in_out, Direction::Opening { in_prefix_len: 2 });
    assert_eq!(&in_out[..90], &plaintext[..]);
    assert_eq!(tag.0, seal_tag.0);
}

fn tag_after(feed: impl Fn(&mut poly1305::Context)) -> [u8; 16] {
    let mut ctx = poly1305::Context::from_key(poly1305::Key::new([0x42; 32]));
    feed(&mut ctx);
    ctx.finish().0
}

// On whole blocks the padded path is the whole-block path.
#[test]
fn padding_is_no_operation_on_whole_blocks() {
    for len in [0usize, 16, 32, 160] {
        let data = squares(len);
        assert_eq!(
            tag_after(|ctx| poly1305_update_padded_16(ctx, &data)),
            tag_after(|ctx| ctx.update_blocks(&data))
        );
    }
}

#[test]
fn padded_update_of_ten_blocks() {
    assert_eq!(
        tag_after(|ctx| poly1305_update_padded_16(ctx, &squares(160))),
        [
            0x36, 0xe8, 0x7f, 0x60, 0xdf, 0x87, 0xf7, 0x5e, 0x7e, 0xe7, 0xe1, 0x8b, 0xb2, 0x53,
            0xff, 0xef,
        ]
    );
}

// Elsewhere it is the whole blocks, then the rest with zero bytes behind it.
#[test]
fn padding_fills_the_last_block_with_zeros() {
    for len in [1usize, 15, 17, 31, 100] {
        let data = squares(len);
        let mut padded = data.clone();
        while padded.len() % 16 != 0 {
            padded.push(0);
        }
        assert_eq!(
            tag_after(|ctx| poly1305_update_padded_16(ctx, &data)),
            tag_after(|ctx| ctx.update_blocks(&padded))
        );
        // The padding counts: without it the tag is another.
        assert_ne!(
            tag_after(|ctx| poly1305_update_padded_16(ctx, &data)),
            tag_after(|ctx| ctx.update_blocks(&padded[..len - len % 16]))
        );
    }
}

#[test]
fn padded_update_leaves_its_input_alone() {
    let data = squares(21);
    let copy = data.clone();
    let _ = tag_after(|ctx| poly1305_update_padded_16(ctx, &data));
    assert_eq!(data, copy);
}
