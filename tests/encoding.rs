use crypto::aes::{cbc_encryptor, KeySize as AesKeySize};
use crypto::blockmodes::PkcsPadding;
use crypto::buffer::{BufferResult, ReadBuffer, RefReadBuffer, RefWriteBuffer, WriteBuffer};
use fdc_core::codec::{deserialize_rdata, serialize_rdata, serialize_renc};
use fdc_core::encrypt::{cbc_seal, cbc_unseal, decryptor, encryptor, EncryptScheme};
use fdc_core::error::FdcError;
use fdc_core::keys::{KeyPair, KeySize, LambdaKey, PublicKey};
use fdc_core::records::{RData, RDataRef, REncData};

fn reference_cbc(key: &[u8], iv: &[u8], data: &[u8]) -> Vec<u8> {
    let mut enc = cbc_encryptor(AesKeySize::KeySize128, key, iv, PkcsPadding);
    let mut out = Vec::new();
    let mut read = RefReadBuffer::new(data);
    let mut buf = [0u8; 4096];
    loop {
        let mut write = RefWriteBuffer::new(&mut buf);
        let res = enc.encrypt(&mut read, &mut write, true).unwrap();
        out.extend(write.take_read_buffer().take_remaining().iter().cloned());
        if let BufferResult::BufferUnderflow = res {
            break;
        }
    }
    out
}

#[test]
fn cbc_matches_rust_crypto() {
    let key = [7u8; 16];
    let iv = [9u8; 16];
    for len in [0usize, 1, 15, 16, 17, 100] {
        let data: Vec<u8> = (0..len).map(|i| i as u8).collect();
        let sealed = cbc_seal(EncryptScheme::AesCbc128, &key, &iv, &data);
        assert_eq!(&sealed[..16], &iv);
        assert_eq!(sealed.len(), 16 + (len / 16 + 1) * 16);
        if len > 0 {
            assert_eq!(&sealed[16..], reference_cbc(&key, &iv, &data).as_slice());
        }
        assert_eq!(cbc_unseal(EncryptScheme::AesCbc128, &key, &sealed), Some(data));
    }
}

#[test]
fn encrypt_decrypt_round_trip_all_schemes() {
    let lambda = LambdaKey::new(&PublicKey::base(), b"ctx");
    for scheme in [EncryptScheme::AesCbc128, EncryptScheme::AesCbc192, EncryptScheme::AesCbc256] {
        let msg = b"the quick brown fox jumps over the lazy dog".to_vec();
        let ct = encryptor(scheme, &lambda, &msg);
        assert_eq!(ct.len(), 16 + 48);
        assert_ne!(&ct[16..16 + msg.len().min(48)], &msg[..msg.len().min(48)]);
        assert_eq!(decryptor(scheme, &lambda, &ct).unwrap(), msg);
    }
    let ct = encryptor(EncryptScheme::AesCbc128, &lambda, b"");
    assert_eq!(ct.len(), 32);
    assert_eq!(decryptor(EncryptScheme::AesCbc128, &lambda, &ct).unwrap(), Vec::<u8>::new());
    assert_eq!(decryptor(EncryptScheme::AesCbc128, &lambda, &ct[..20]), Err(FdcError::DecryptFailed));
}

#[test]
fn payload_layout_matches_bincode() {
    let lambda = LambdaKey::new(&PublicKey::base(), b"x");
    let rd = RData {
        lprev: Some(lambda.clone()),
        dref: RDataRef { ksize: KeySize::S256, dn: vec![1, 2, 3], hfile: b"loc".to_vec() },
    };
    let ours = serialize_rdata(&rd);
    let theirs = bincode::serialize(&(
        Some(lambda.as_slice().to_vec()),
        2u32,
        vec![1u8, 2, 3],
        b"loc".to_vec(),
    ))
    .unwrap();
    assert_eq!(ours, theirs);
    assert!(deserialize_rdata(&ours).unwrap() == rd);
    let head = RData {
        lprev: None,
        dref: RDataRef { ksize: KeySize::S128, dn: vec![], hfile: vec![9] },
    };
    let ours = serialize_rdata(&head);
    let theirs = bincode::serialize(&(None::<Vec<u8>>, 0u32, Vec::<u8>::new(), vec![9u8])).unwrap();
    assert_eq!(ours, theirs);
    assert!(deserialize_rdata(&ours).unwrap() == head);
    assert!(deserialize_rdata(&ours[..ours.len() - 1]).is_none());
    let mut extra = ours.clone();
    extra.push(0);
    assert!(deserialize_rdata(&extra).is_none());
    assert!(deserialize_rdata(&[2u8]).is_none());

    let kn = KeyPair::rand().key;
    let enc = REncData { kn, ciphertext: vec![5, 6, 7] };
    let theirs = bincode::serialize(&(kn.to_bytes(), vec![5u8, 6, 7])).unwrap();
    assert_eq!(serialize_renc(&enc), theirs);
}
