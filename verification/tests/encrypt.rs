use bichon::crypto::internal_decrypt_string;
use bichon::crypto::internal_encrypt_string;

#[test]
fn test_encrypt_decrypt() {
    let password = "my_secure_passwasdasdasdasdasord";
    let plaintext = "Helloasdasdasdasdasd, World!";
    let encrypted = internal_encrypt_string(password, plaintext).unwrap();
    println!("{}", &encrypted);
    let decrypted = internal_decrypt_string(password, &encrypted).unwrap();
    assert_eq!(decrypted, plaintext);
}

#[test]
fn wrong_password_fails_decryption() {
    let encrypted = internal_encrypt_string("correct-master-key", "a secret value").unwrap();
    let wrong = internal_decrypt_string("other-master-key", &encrypted);
    assert!(wrong.is_err());
}

#[test]
fn malformed_envelope_is_rejected() {
    assert!(internal_decrypt_string("key", "!!! not base64 !!!").is_err());
    assert!(internal_decrypt_string("key", "c2hvcnQ=").is_err());
}
