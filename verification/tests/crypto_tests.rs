use silksongtool::crypto::DecryptError;
use silksongtool::decrypt_save_file;

#[test]
fn test_file_too_small() {
    let small_data = vec![0u8; 10];
    let result = decrypt_save_file(&small_data);
    assert!(matches!(result, Err(DecryptError::FileTooSmall)));
}

#[test]
fn test_invalid_base64() {
    // Create data that's large enough but has invalid base64
    let mut data = vec![0u8; 30];
    data.extend_from_slice(b"!!!invalid base64!!!");
    let result = decrypt_save_file(&data);
    assert!(matches!(result, Err(DecryptError::InvalidEncoding)));
}

#[test]
fn boundary_sizes_are_too_small() {
    // 26 bytes is still too small; 27 bytes reaches the framed region.
    let at_boundary = vec![b'A'; 26];
    assert!(matches!(decrypt_save_file(&at_boundary), Err(DecryptError::FileTooSmall)));
    let past_boundary = vec![b'A'; 27];
    assert!(!matches!(decrypt_save_file(&past_boundary), Err(DecryptError::FileTooSmall)));
    let empty: Vec<u8> = Vec::new();
    assert!(matches!(decrypt_save_file(&empty), Err(DecryptError::FileTooSmall)));
}

#[test]
fn framed_garbage_is_invalid_encoding() {
    // A container whose framed region is "!!!invalid!!!".
    let mut data = vec![0u8; 25];
    data.extend_from_slice(b"!!!invalid!!!");
    data.push(0);
    let result = decrypt_save_file(&data);
    assert!(matches!(result, Err(DecryptError::InvalidEncoding)));
}

#[test]
fn non_block_aligned_ciphertext_fails_decryption() {
    // "AAAAAAA=" is valid base64 for five zero bytes; five is not a
    // multiple of the cipher block size.
    let mut data = vec![0u8; 25];
    data.extend_from_slice(b"AAAAAAA=");
    data.push(0);
    let result = decrypt_save_file(&data);
    assert!(matches!(result, Err(DecryptError::DecryptionFailed)));
}

#[test]
fn block_aligned_garbage_fails_decryption() {
    // Sixteen zero bytes decode fine but decrypt to garbage padding.
    let mut data = vec![0u8; 25];
    data.extend_from_slice(b"AAAAAAAAAAAAAAAAAAAAAA==");
    data.push(0);
    let result = decrypt_save_file(&data);
    assert!(matches!(result, Err(DecryptError::DecryptionFailed)));
}

#[test]
fn decrypt_is_deterministic() {
    let mut data = vec![0u8; 30];
    data.extend_from_slice(b"!!!invalid base64!!!");
    let r1 = decrypt_save_file(&data);
    let r2 = decrypt_save_file(&data);
    assert_eq!(r1, r2);
}

#[test]
fn error_messages_name_their_cause() {
    assert!(DecryptError::FileTooSmall.message().contains("small"));
    assert!(DecryptError::InvalidEncoding.message().contains("base64"));
    assert!(DecryptError::DecryptionFailed.message().contains("padding"));
}
