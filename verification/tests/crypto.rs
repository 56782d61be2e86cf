use mailkit::error::ErrorReport;
use mailkit::rsakeys::RsaKeys;

fn pem_pair(passphrase: &str) -> (Vec<u8>, Vec<u8>) {
    let rsa = openssl::rsa::Rsa::generate(2048).unwrap();
    let priv_pem = rsa
        .private_key_to_pem_passphrase(openssl::symm::Cipher::aes_256_cbc(), passphrase.as_bytes())
        .unwrap();
    let pub_pem = rsa.public_key_to_pem().unwrap();
    (priv_pem, pub_pem)
}

#[test]
fn rsa() {
    let passphrase = String::from("SECRET-REDACTED");
    let (priv_pem, pub_pem) = pem_pair(&passphrase);
    let rsa = RsaKeys::init(&passphrase, &priv_pem, &pub_pem).unwrap();

    let text = String::from("Lorem ipsum dolor. sit amet, consectetur adipiscing elit.");

    let pub_cript = rsa.pub_encrypt(&text).unwrap();
    let priv_decrypt = rsa.priv_decrypt(&pub_cript).unwrap();
    assert_eq!(
        priv_decrypt, text,
        "Private decrypt: text not equal to input"
    );

    let priv_cript = rsa.priv_encrypt(&text).unwrap();
    let pub_decrypt = rsa.pub_decrypt(&priv_cript).unwrap();
    assert_eq!(pub_decrypt, text, "Public decrypt: text not equal to input");
}

#[test]
fn wrong_passphrase_is_a_crypto_error() {
    let (priv_pem, pub_pem) = pem_pair("right");
    let res = RsaKeys::init(&String::from("wrong"), &priv_pem, &pub_pem);
    assert!(matches!(res, Err(ErrorReport::Crypto { .. })));
}

#[test]
fn garbage_base64_is_a_decode_error() {
    let passphrase = String::from("SECRET-REDACTED");
    let (priv_pem, pub_pem) = pem_pair(&passphrase);
    let rsa = RsaKeys::init(&passphrase, &priv_pem, &pub_pem).unwrap();
    let res = rsa.pub_decrypt(&String::from("!!!not base64!!!"));
    assert!(matches!(res, Err(ErrorReport::Decode { .. })));
    let res = rsa.priv_decrypt(&String::from("!!!not base64!!!"));
    assert!(matches!(res, Err(ErrorReport::Decode { .. })));
}

#[test]
fn non_utf8_plaintext_is_a_utf8_error() {
    let passphrase = String::from("SECRET-REDACTED");
    let (priv_pem, pub_pem) = pem_pair(&passphrase);
    let rsa = RsaKeys::init(&passphrase, &priv_pem, &pub_pem).unwrap();

    let public = openssl::rsa::Rsa::public_key_from_pem(&pub_pem).unwrap();
    let mut buf = vec![0u8; public.size() as usize];
    let n = public
        .public_encrypt(&[0xff, 0xfe, 0x01], &mut buf, openssl::rsa::Padding::PKCS1)
        .unwrap();
    let framed = data_encoding::BASE64URL_NOPAD.encode(&buf[..n]);

    let res = rsa.priv_decrypt(&framed);
    assert!(matches!(res, Err(ErrorReport::Utf8 { .. })));
}

#[test]
fn private_encryption_is_deterministic_and_key_sized() {
    let passphrase = String::from("SECRET-REDACTED");
    let (priv_pem, pub_pem) = pem_pair(&passphrase);
    let rsa = RsaKeys::init(&passphrase, &priv_pem, &pub_pem).unwrap();

    let text = String::from("same input, same framing");
    let first = rsa.priv_encrypt(&text).unwrap();
    let second = rsa.priv_encrypt(&text).unwrap();
    assert_eq!(first, second);

    let ct = data_encoding::BASE64URL_NOPAD.decode(first.as_bytes()).unwrap();
    assert_eq!(ct.len(), 256);
    let pub_ct = data_encoding::BASE64URL_NOPAD
        .decode(rsa.pub_encrypt(&text).unwrap().as_bytes())
        .unwrap();
    assert_eq!(pub_ct.len(), 256);
}

#[test]
fn encryption_succeeds_exactly_when_the_data_fits() {
    let passphrase = String::from("SECRET-REDACTED");
    let (priv_pem, pub_pem) = pem_pair(&passphrase);
    let rsa = RsaKeys::init(&passphrase, &priv_pem, &pub_pem).unwrap();

    let fitting = "y".repeat(245);
    assert!(rsa.pub_encrypt(&fitting).is_ok());
    assert!(rsa.priv_encrypt(&fitting).is_ok());

    let oversize = "x".repeat(246);
    assert!(matches!(rsa.pub_encrypt(&oversize), Err(ErrorReport::Crypto { .. })));
    assert!(matches!(rsa.priv_encrypt(&oversize), Err(ErrorReport::Crypto { .. })));
}
