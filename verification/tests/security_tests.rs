use khushu::security::{deobfuscate, obfuscate};

#[test]
fn roundtrip() {
    let original = "36.7528";
    let encoded = obfuscate(original).expect("Obfuscation failed");
    assert_ne!(original, encoded);

    let decoded = deobfuscate(&encoded).expect("Deobfuscation failed");
    assert_eq!(original, decoded);
}

#[test]
fn deterministic() {
    let data = "3.0588";
    let enc1 = obfuscate(data).unwrap();
    let enc2 = obfuscate(data).unwrap();
    assert_eq!(enc1, enc2);
}

#[test]
fn obfuscation_is_key_xor_in_base64() {
    // "k" XOR 'k' (first key byte) is 0, "h" XOR 'h' is 0: two zero bytes.
    assert_eq!(obfuscate("kh").unwrap(), "AAA=");
    assert_eq!(deobfuscate("AAA=").unwrap(), "kh");
    assert_eq!(obfuscate("").unwrap(), "");
}

#[test]
fn non_unicode_roundtrip_and_errors() {
    let text = "الجزائر 36.75";
    assert_eq!(deobfuscate(&obfuscate(text).unwrap()).unwrap(), text);
    assert!(deobfuscate("not base64!").is_err());
    // 0xFF XOR 'k' is not valid UTF-8 on its own.
    assert!(deobfuscate("lA==").is_err());
}
