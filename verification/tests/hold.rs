//! Holding the lock: the nonce, its hash, and the capability.

use brokkr::hold::{
    auth_hash, capability, cargo_config_overrides, clear_capability, hash_text, inside_admitted_compilation, mint_nonce,
    publish_capability, stamp, Capability,
};

const ENTROPY: [u8; 16] = [0x00, 0x1f, 0xa0, 0xff, 4, 5, 6, 7, 8, 9, 10, 11, 12, 13, 14, 0xf0];

#[test]
fn a_minted_nonce_is_thirty_two_hex_chars() {
    let n = mint_nonce(&ENTROPY);
    assert_eq!(n.len(), 32, "{n}");
    assert!(n.chars().all(|c| c.is_ascii_hexdigit()), "{n}");
    assert_eq!(n, "001fa0ff0405060708090a0b0c0d0ef0");
}

#[test]
fn two_minted_nonces_differ() {
    let mut other = ENTROPY;
    other[15] = 0xf1;
    assert_ne!(mint_nonce(&ENTROPY), mint_nonce(&other));
}

#[test]
fn the_hash_is_stable_and_hides_the_nonce() {
    let n = "0123456789abcdef0123456789abcdef";
    assert_eq!(auth_hash(n), auth_hash(n));
    assert_ne!(auth_hash(n), n);
    assert_ne!(auth_hash(n), auth_hash("0123456789abcdef0123456789abcdee"));
}

#[test]
fn stamp_is_a_no_op_without_a_capability() {
    let slot = Capability::none();
    assert_eq!(stamp(&slot), vec![("CARGO_CACHE_RUSTC_INFO".to_string(), "0".to_string())]);
    if let Some(c) = capability(&slot) {
        assert!(!c.is_empty());
    }
}

#[test]
fn a_second_hold_replaces_the_first_holds_capability() {
    let mut slot = Capability::none();
    publish_capability(&mut slot, "first");
    assert_eq!(capability(&slot).as_deref(), Some("first"));
    publish_capability(&mut slot, "second");
    assert_eq!(
        capability(&slot).as_deref(),
        Some("second"),
        "a sequential second hold must replace the first hold's nonce"
    );
    clear_capability(&mut slot);
    assert_eq!(capability(&slot), None, "release must forget the capability");
}

#[test]
fn the_hash_is_that_of_the_bytes() {
    assert_eq!(auth_hash(""), "99aa06d3014798d86001c324468d497f");
    assert_eq!(hash_text(0x0102), "00000000000000000000000000000102");
    let mut slot = Capability::none();
    publish_capability(&mut slot, "ab");
    assert_eq!(
        cargo_config_overrides(&slot),
        "[env]\nCARGO_CACHE_RUSTC_INFO = { value = \"0\", force = true, relative = false }\nBROKKR_HOLD_NONCE = { value = \"ab\", force = true, relative = false }\n"
    );
    assert!(inside_admitted_compilation(Some("x")));
    assert!(!inside_admitted_compilation(Some("")));
    assert!(!inside_admitted_compilation(None));
}
