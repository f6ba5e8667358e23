use solana_secure_signer::{EncryptedKeyContainer, SignerError};

fn sample(public_key: Option<&str>) -> EncryptedKeyContainer {
    EncryptedKeyContainer {
        version: 1,
        salt: "c2FsdA==".to_string(),
        nonce: "bm9uY2U=".to_string(),
        ciphertext: "Y2lwaGVy+/8=".to_string(),
        public_key: public_key.map(|p| p.to_string()),
    }
}

#[test]
fn to_json_writes_fields_in_order() {
    let text = sample(Some("4zvwRjXUKGfvwnParsHAS3HuSVzV5cA4McphgmoCtajS")).to_json().unwrap();
    assert_eq!(
        text,
        "{\"version\":1,\"salt\":\"c2FsdA==\",\"nonce\":\"bm9uY2U=\",\"ciphertext\":\"Y2lwaGVy+/8=\",\"public_key\":\"4zvwRjXUKGfvwnParsHAS3HuSVzV5cA4McphgmoCtajS\"}"
    );
    assert!(text.contains("\"version\":1"));
}

#[test]
fn to_json_leaves_out_missing_public_key() {
    let text = sample(None).to_json().unwrap();
    assert_eq!(text, "{\"version\":1,\"salt\":\"c2FsdA==\",\"nonce\":\"bm9uY2U=\",\"ciphertext\":\"Y2lwaGVy+/8=\"}");
}

#[test]
fn from_json_reads_back_what_to_json_writes() {
    for pk in [None, Some("abc")] {
        let written = sample(pk);
        let back = EncryptedKeyContainer::from_json(&written.to_json().unwrap()).unwrap();
        assert_eq!(back.version, written.version);
        assert_eq!(back.salt, written.salt);
        assert_eq!(back.nonce, written.nonce);
        assert_eq!(back.ciphertext, written.ciphertext);
        assert_eq!(back.public_key, written.public_key);
    }
}

#[test]
fn from_json_reads_every_version_byte() {
    for version in [0u8, 9, 10, 99, 100, 255] {
        let mut c = sample(None);
        c.version = version;
        let back = EncryptedKeyContainer::from_json(&c.to_json().unwrap()).unwrap();
        assert_eq!(back.version, version);
    }
}

#[test]
fn from_json_takes_any_member_order_and_whitespace() {
    let text = " {\n  \"salt\" : \"AAAA\",\t\"version\":1 ,\"nonce\":\"AAAA\",\r\n\"ciphertext\":\"AAAA\"\n} ";
    let c = EncryptedKeyContainer::from_json(text).unwrap();
    assert_eq!(c.version, 1);
    assert_eq!(c.salt, "AAAA");
    assert_eq!(c.nonce, "AAAA");
    assert_eq!(c.ciphertext, "AAAA");
    assert_eq!(c.public_key, None);
}

#[test]
fn from_json_takes_null_public_key_and_unknown_members() {
    let text = "{\"version\":1,\"note\":{\"a\":[1,2,{\"b\":\"]\"}]},\"salt\":\"s\",\"flag\":true,\"n\":-1.5e3,\
                \"nonce\":\"n\",\"x\":null,\"ciphertext\":\"c\",\"public_key\":null,\"y\":\"z\"}";
    let c = EncryptedKeyContainer::from_json(text).unwrap();
    assert_eq!(c.salt, "s");
    assert_eq!(c.nonce, "n");
    assert_eq!(c.ciphertext, "c");
    assert_eq!(c.public_key, None);
}

#[test]
fn from_json_reads_escapes() {
    let text = "{\"version\":2,\"salt\":\"a\\\"b\\\\c\\/d\\n\",\"nonce\":\"\\u0041\\u00e9\",\
                \"ciphertext\":\"\\ud83d\\ude00\",\"public_key\":\"pk\"}";
    let c = EncryptedKeyContainer::from_json(text).unwrap();
    assert_eq!(c.version, 2);
    assert_eq!(c.salt, "a\"b\\c/d\n");
    assert_eq!(c.nonce, "A\u{e9}");
    assert_eq!(c.ciphertext, "\u{1f600}");
    assert_eq!(c.public_key, Some("pk".to_string()));
}

#[test]
fn from_json_refuses_other_texts() {
    let good = sample(Some("pk")).to_json().unwrap();
    let bad = [
        String::new(),
        "{}".to_string(),
        "[]".to_string(),
        good.replace("\"version\":1", "\"version\":01"),
        good.replace("\"version\":1", "\"version\":256"),
        good.replace("\"version\":1", "\"version\":1.0"),
        good.replace("\"version\":1", "\"version\":-1"),
        good.replace("\"version\":1", "\"version\":\"1\""),
        good.replace("\"salt\":\"c2FsdA==\",", ""),
        good.replace("\"salt\":\"c2FsdA==\"", "\"salt\":1"),
        good.replace("}", ",\"salt\":\"again\"}"),
        good.replace("\"public_key\":\"pk\"", "\"public_key\":7"),
        good.replace("\"nonce\":\"bm9uY2U=\"", "\"nonce\":\"\\ud800\""),
        format!("{} x", good),
        good[..good.len() - 1].to_string(),
    ];
    for text in bad.iter() {
        match EncryptedKeyContainer::from_json(text) {
            Err(SignerError::ContainerError(_)) => {}
            Err(e) => panic!("{:?} gave {:?}", text, e),
            Ok(_) => panic!("{:?} was accepted", text),
        }
    }
}

#[test]
fn to_json_escapes_and_reads_back() {
    let mut c = sample(None);
    c.nonce = "a\"b\\c\nd\u{1}e".to_string();
    let text = c.to_json().unwrap();
    assert!(text.contains("\"nonce\":\"a\\\"b\\\\c\\nd\\u0001e\""));
    let back = EncryptedKeyContainer::from_json(&text).unwrap();
    assert_eq!(back.nonce, c.nonce);
    assert_eq!(back.salt, c.salt);
}

#[test]
fn from_json_refuses_malformed_unknown_members() {
    let good = sample(None).to_json().unwrap();
    for extra in ["[1,,2]", "{\"a\"}", "[1,2", "{\"a\":1,}", "[1 2]", "{1:2}", "tru", "01", "1.", "\"open"] {
        let text = good.replace("}", &format!(",\"x\":{}}}", extra));
        match EncryptedKeyContainer::from_json(&text) {
            Err(SignerError::ContainerError(_)) => {}
            Err(e) => panic!("{:?} gave {:?}", text, e),
            Ok(_) => panic!("{:?} was accepted", text),
        }
    }
    for extra in ["[]", "{}", "[1, {\"a\": [true, false, null]}, \"s\"]", "{ \"a\" : { } }", "-0.5E+2"] {
        let text = good.replace("}", &format!(",\"x\":{}}}", extra));
        assert!(EncryptedKeyContainer::from_json(&text).is_ok(), "{:?} was refused", text);
    }
}

#[test]
fn from_json_refuses_nesting_beyond_the_limit() {
    let good = sample(None).to_json().unwrap();
    let deep = format!("{}{}", "[".repeat(200), "]".repeat(200));
    let text = good.replace("}", &format!(",\"x\":{}}}", deep));
    assert!(matches!(EncryptedKeyContainer::from_json(&text), Err(SignerError::ContainerError(_))));
    let shallow = format!("{}{}", "[".repeat(100), "]".repeat(100));
    let text = good.replace("}", &format!(",\"x\":{}}}", shallow));
    assert!(EncryptedKeyContainer::from_json(&text).is_ok());
}
