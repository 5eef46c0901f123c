use card_vault::crypto::{fingerprint, KeyMaterial};
use card_vault::model::VaultError;
use card_vault::vault::Vault;

fn master_key() -> KeyMaterial {
    KeyMaterial::new(vec![0x42; 32])
}

fn other_key() -> KeyMaterial {
    KeyMaterial::new(vec![0x17; 32])
}

const TENANT: &str = "hyperswitch";
const PAN_PAYLOAD: &[u8] = br#"{"pan":"4111111111111111"}"#;

fn hex_to_bytes(hex: &str) -> Vec<u8> {
    let digits: Vec<u8> = hex
        .bytes()
        .map(|b| match b {
            b'0'..=b'9' => b - b'0',
            b'a'..=b'f' => b - b'a' + 10,
            _ => panic!("not a hex digit"),
        })
        .collect();
    digits.chunks(2).map(|pair| pair[0] * 16 + pair[1]).collect()
}

#[test]
fn scenario_store_retrieve_delete() {
    let master = master_key();
    let mut vault = Vault::new();

    let r1 = vault
        .store(&master, TENANT, "m1", "c1", PAN_PAYLOAD)
        .expect("store must succeed");
    let back = vault
        .retrieve(&master, TENANT, "m1", "c1", r1)
        .expect("retrieve must succeed");
    assert_eq!(back, PAN_PAYLOAD.to_vec());

    assert_eq!(vault.delete(TENANT, "m1", "c1", r1), Ok(1));
    assert_eq!(
        vault.retrieve(&master, TENANT, "m1", "c1", r1),
        Err(VaultError::NotFound)
    );
}

#[test]
fn dedup_same_customer_returns_same_reference() {
    let master = master_key();
    let mut vault = Vault::new();

    let r1 = vault.store(&master, TENANT, "m1", "c1", PAN_PAYLOAD).unwrap();
    let r2 = vault.store(&master, TENANT, "m1", "c1", PAN_PAYLOAD).unwrap();
    assert_eq!(r1, r2);

    // Still exactly one record: deleting it once empties the customer scope.
    assert_eq!(vault.delete(TENANT, "m1", "c1", r1), Ok(1));
    assert_eq!(vault.delete(TENANT, "m1", "c1", r2), Ok(0));
}

#[test]
fn repeated_store_converges_to_one_record() {
    let master = master_key();
    let mut vault = Vault::new();

    // Many store requests for identical new content from the same new
    // merchant and customer: every one resolves to the same single record.
    let first = vault.store(&master, TENANT, "m1", "c1", PAN_PAYLOAD).unwrap();
    for _ in 0..5 {
        let again = vault.store(&master, TENANT, "m1", "c1", PAN_PAYLOAD).unwrap();
        assert_eq!(again, first);
    }
    // Exactly one record exists: one delete empties the scope.
    assert_eq!(vault.delete(TENANT, "m1", "c1", first), Ok(1));
    assert_eq!(
        vault.retrieve(&master, TENANT, "m1", "c1", first),
        Err(VaultError::NotFound)
    );
}

#[test]
fn distinct_payloads_get_distinct_references() {
    let master = master_key();
    let mut vault = Vault::new();

    let r1 = vault.store(&master, TENANT, "m1", "c1", PAN_PAYLOAD).unwrap();
    let r2 = vault
        .store(&master, TENANT, "m1", "c1", br#"{"pan":"5500000000000004"}"#)
        .unwrap();
    assert_ne!(r1, r2);
    assert_eq!(
        vault.retrieve(&master, TENANT, "m1", "c1", r1).unwrap(),
        PAN_PAYLOAD.to_vec()
    );
    assert_eq!(
        vault.retrieve(&master, TENANT, "m1", "c1", r2).unwrap(),
        br#"{"pan":"5500000000000004"}"#.to_vec()
    );
}

#[test]
fn store_after_delete_mints_new_reference() {
    let master = master_key();
    let mut vault = Vault::new();

    let r1 = vault.store(&master, TENANT, "m1", "c1", PAN_PAYLOAD).unwrap();
    assert_eq!(vault.delete(TENANT, "m1", "c1", r1), Ok(1));
    // The dedup group outlives its records; the content is simply stored
    // again under a fresh, never-reused reference.
    let r2 = vault.store(&master, TENANT, "m1", "c1", PAN_PAYLOAD).unwrap();
    assert_ne!(r1, r2);
    assert_eq!(
        vault.retrieve(&master, TENANT, "m1", "c1", r2).unwrap(),
        PAN_PAYLOAD.to_vec()
    );
    assert_eq!(
        vault.retrieve(&master, TENANT, "m1", "c1", r1),
        Err(VaultError::NotFound)
    );
}

#[test]
fn per_customer_isolation() {
    let master = master_key();
    let mut vault = Vault::new();

    let ra = vault.store(&master, TENANT, "m1", "customer_a", PAN_PAYLOAD).unwrap();
    let rb = vault.store(&master, TENANT, "m1", "customer_b", PAN_PAYLOAD).unwrap();
    assert_ne!(ra, rb);

    // Each reference resolves only under its own customer scope.
    assert!(vault.retrieve(&master, TENANT, "m1", "customer_a", ra).is_ok());
    assert!(vault.retrieve(&master, TENANT, "m1", "customer_b", rb).is_ok());
    assert_eq!(
        vault.retrieve(&master, TENANT, "m1", "customer_a", rb),
        Err(VaultError::NotFound)
    );
    assert_eq!(
        vault.retrieve(&master, TENANT, "m1", "customer_b", ra),
        Err(VaultError::NotFound)
    );
}

#[test]
fn merchant_isolation() {
    let master = master_key();
    let mut vault = Vault::new();

    let r1 = vault.store(&master, TENANT, "m1", "c1", PAN_PAYLOAD).unwrap();
    // m2 exists, with its own DEK, but must never resolve m1's reference.
    let _ = vault.store(&master, TENANT, "m2", "c1", b"{\"pan\":\"340000000000009\"}").unwrap();
    assert_eq!(
        vault.retrieve(&master, TENANT, "m2", "c1", r1),
        Err(VaultError::NotFound)
    );
    // Deletion is scoped the same way: m2 cannot delete m1's record.
    assert_eq!(vault.delete(TENANT, "m2", "c1", r1), Ok(0));
    assert!(vault.retrieve(&master, TENANT, "m1", "c1", r1).is_ok());
}

#[test]
fn round_trip_bit_for_bit() {
    let master = master_key();
    let mut vault = Vault::new();

    let payloads: Vec<Vec<u8>> = vec![
        b"".to_vec(),
        b"x".to_vec(),
        PAN_PAYLOAD.to_vec(),
        (0u8..=255).collect(),
    ];
    for (n, payload) in payloads.iter().enumerate() {
        let customer = format!("c{}", n);
        let r = vault.store(&master, TENANT, "m1", &customer, payload).unwrap();
        assert_eq!(&vault.retrieve(&master, TENANT, "m1", &customer, r).unwrap(), payload);
    }
}

#[test]
fn delete_is_idempotent() {
    let master = master_key();
    let mut vault = Vault::new();

    // Deleting under an unknown merchant is the one delete error.
    assert_eq!(vault.delete(TENANT, "m1", "c1", 0), Err(VaultError::NotFound));

    let r1 = vault.store(&master, TENANT, "m1", "c1", PAN_PAYLOAD).unwrap();
    // Deleting a reference that never existed succeeds with zero records.
    assert_eq!(vault.delete(TENANT, "m1", "c1", r1 + 1), Ok(0));
    // Deleting twice is safe.
    assert_eq!(vault.delete(TENANT, "m1", "c1", r1), Ok(1));
    assert_eq!(vault.delete(TENANT, "m1", "c1", r1), Ok(0));
}

#[test]
fn retrieve_unknown_is_not_found() {
    let master = master_key();
    let mut vault = Vault::new();

    // No merchant at all.
    assert_eq!(
        vault.retrieve(&master, TENANT, "m1", "c1", 0),
        Err(VaultError::NotFound)
    );
    let r1 = vault.store(&master, TENANT, "m1", "c1", PAN_PAYLOAD).unwrap();
    // Merchant exists, reference does not.
    assert_eq!(
        vault.retrieve(&master, TENANT, "m1", "c1", r1 + 1),
        Err(VaultError::NotFound)
    );
    // Wrong tenant scope.
    assert_eq!(
        vault.retrieve(&master, "other_tenant", "m1", "c1", r1),
        Err(VaultError::NotFound)
    );
}

#[test]
fn wrong_master_key_fails_closed() {
    let master = master_key();
    let mut vault = Vault::new();

    let r1 = vault.store(&master, TENANT, "m1", "c1", PAN_PAYLOAD).unwrap();
    // A wrong master key cannot decrypt the merchant DEK: the request fails
    // with an opaque decryption error, never with wrong plaintext.
    assert_eq!(
        vault.retrieve(&other_key(), TENANT, "m1", "c1", r1),
        Err(VaultError::DecryptionFailed)
    );
}

#[test]
fn fingerprint_is_sha512() {
    let empty = fingerprint(b"");
    assert_eq!(empty.len(), 64);
    assert_eq!(
        empty,
        hex_to_bytes(
            "cf83e1357eefb8bdf1542850d66d8007d620e4050b5715dc83f4a921d36ce9ce\
             47d0d13c5d85f2b0ff8318d2877eec2f63b931bd47417a81a538327af927da3e"
        )
    );
    // Deterministic, and sensitive to the content.
    assert_eq!(fingerprint(PAN_PAYLOAD), fingerprint(PAN_PAYLOAD));
    assert_ne!(fingerprint(b"a"), fingerprint(b"b"));
}

#[test]
fn ciphertext_is_not_plaintext() {
    // If encryption handed the payload back unchanged, decrypting under the
    // real key would reject it and the round trip would fail; equal content
    // stored by two customers would also collide on references. Both are
    // covered above; here the reference space itself is checked to be opaque:
    // references say nothing about the payload.
    let master = master_key();
    let mut vault = Vault::new();
    let r1 = vault.store(&master, TENANT, "m1", "c1", b"aaaa").unwrap();
    let r2 = vault.store(&master, TENANT, "m1", "c2", b"aaaa").unwrap();
    assert_ne!(r1, r2);
}
