use novapay::{
    NovaPayWallet, SmsService, StellarService, WalletConfig, WalletError, WalletManager,
    WalletSDKService,
};

fn config() -> WalletConfig {
    WalletConfig {
        network: "testnet".to_string(),
        horizon_url: "https://horizon-testnet.stellar.org".to_string(),
    }
}

fn secret() -> String {
    format!("S{}", "A".repeat(55))
}

fn is_hex(s: &str) -> bool {
    s.chars().all(|c| c.is_ascii_digit() || ('a'..='f').contains(&c))
}

#[test]
fn wallet_from_valid_secret() {
    let w = NovaPayWallet::new(&secret(), config()).ok().unwrap();
    assert_eq!(w.public_key(), format!("G{}", "A".repeat(55)));
}

#[test]
fn wallet_from_bad_secret() {
    for bad in [format!("G{}", "A".repeat(55)), "S123".to_string(), String::new()] {
        match NovaPayWallet::new(&bad, config()) {
            Err(WalletError::InvalidKeypair(m)) => assert_eq!(m, "Invalid secret key format"),
            _ => panic!("accepted a malformed secret key"),
        }
    }
}

#[test]
fn generated_keys_share_hex_digits() {
    let (public_key, secret_key) = NovaPayWallet::generate();
    assert_eq!(public_key.len(), 56);
    assert_eq!(secret_key.len(), 56);
    assert!(public_key.starts_with('G'));
    assert!(secret_key.starts_with('S'));
    assert_eq!(public_key[1..], secret_key[1..]);
    assert!(is_hex(&public_key[1..]));
    let service = WalletSDKService::for_network("testnet".to_string());
    assert!(service.validate_stellar_address(&public_key));
    assert!(service.validate_stellar_secret(&secret_key));
}

#[test]
fn keypair_from_generated_bytes() {
    let account = StellarService::generate_keypair();
    assert!(is_hex(&account.public_key[1..]));
    let svc = StellarService::with_contract("C1".to_string());
    let again = svc.keypair_from_secret(&account.secret_key);
    assert_eq!(again.public_key, account.public_key);
    assert_eq!(again.secret_key, account.secret_key);
}

#[test]
fn address_and_secret_shapes() {
    let service = WalletSDKService::for_network("testnet".to_string());
    assert!(service.validate_stellar_address(&format!("G{}", "B".repeat(55))));
    assert!(!service.validate_stellar_address(&format!("G{}", "B".repeat(54))));
    assert!(!service.validate_stellar_address(&secret()));
    assert!(service.validate_stellar_secret(&secret()));
    assert!(!service.validate_stellar_secret(""));
}

#[test]
fn network_selects_horizon() {
    let t = WalletSDKService::for_network("testnet".to_string());
    assert_eq!(t.config().horizon_url, "https://horizon-testnet.stellar.org");
    let p = WalletSDKService::for_network("public".to_string());
    assert_eq!(p.config().horizon_url, "https://horizon.stellar.org");
    assert_eq!(p.config().network, "public");
}

#[test]
fn created_wallet_has_keys_and_id() {
    let service = WalletSDKService::for_network("testnet".to_string());
    let r = service.create_wallet();
    assert_eq!(r.wallet_id.len(), 36);
    assert_eq!(r.public_key[1..], r.secret_key[1..]);
    assert!(service.open_wallet(&r.secret_key).is_ok());
}

#[test]
fn manager_keeps_wallets_by_id() {
    let mut m = WalletManager::new(config());
    assert!(m.get_wallet("a").is_none());
    assert!(m.add_wallet("a", &secret()).is_ok());
    assert!(m.add_wallet("b", "bad").is_err());
    assert!(m.get_wallet("b").is_none());
    let other = format!("S{}", "C".repeat(55));
    m.add_wallet("a", &other).ok().unwrap();
    assert_eq!(m.get_wallet("a").unwrap().public_key(), format!("G{}", "C".repeat(55)));
    m.add_wallet("b", &secret()).ok().unwrap();
    m.add_wallet("a", &secret()).ok().unwrap();
    assert_eq!(m.get_wallet("a").unwrap().public_key(), format!("G{}", "A".repeat(55)));
    assert!(m.get_wallet("b").is_some());
}

#[test]
fn sms_service_builds() {
    let _ = SmsService::new();
}

#[test]
fn generated_secret_opens_its_wallet() {
    let (public_key, secret_key) = NovaPayWallet::generate();
    assert!(secret_key.is_ascii() && public_key.is_ascii());
    let w = NovaPayWallet::new(&secret_key, config()).ok().unwrap();
    assert_eq!(w.public_key(), public_key);
}

#[test]
fn payment_gets_fresh_hash() {
    let w = NovaPayWallet::new(&secret(), config()).ok().unwrap();
    let p = w.send_payment("GDEST", "12.5", Some("USDC")).ok().unwrap();
    assert_eq!(p.destination, "GDEST");
    assert_eq!(p.amount, "12.5");
    assert_eq!(p.asset_code, "XLM");
    assert_eq!(p.transaction_hash.len(), 19);
    assert!(p.transaction_hash.starts_with("tx_"));
    assert!(is_hex(&p.transaction_hash[3..]));
    let q = w.send_payment("GDEST", "12.5", None).ok().unwrap();
    assert_ne!(p.transaction_hash, q.transaction_hash);
}

#[test]
fn trustline_hash_names_asset_and_issuer() {
    let w = NovaPayWallet::new(&secret(), config()).ok().unwrap();
    let h = w.create_trustline("USDC", "GISSUER123456", None).ok().unwrap();
    assert_eq!(h, "trustline_USDC_GISSUER1");
}

#[test]
fn trustline_hash_cuts_issuer_at_eight_bytes() {
    let w = NovaPayWallet::new(&secret(), config()).ok().unwrap();
    let h = w.create_trustline("KES", "éééééééé", None).ok().unwrap();
    assert_eq!(h, "trustline_KES_éééé");
    let h = w.create_trustline("KES", "éééé", Some("10")).ok().unwrap();
    assert_eq!(h, "trustline_KES_éééé");
}

#[test]
fn bulk_payment_pays_in_order() {
    let mut m = WalletManager::new(config());
    m.add_wallet("main", &secret()).ok().unwrap();
    let payments = vec![
        ("GA".to_string(), "1".to_string()),
        ("GB".to_string(), "2".to_string()),
    ];
    let results = m.bulk_payment("main", payments).ok().unwrap();
    assert_eq!(results.len(), 2);
    assert_eq!(results[0].destination, "GA");
    assert_eq!(results[1].amount, "2");
    assert!(results.iter().all(|p| p.asset_code == "XLM"));
    match m.bulk_payment("other", vec![]) {
        Err(WalletError::TransactionFailed(msg)) => assert_eq!(msg, "Wallet not found"),
        _ => panic!("paid from a missing wallet"),
    }
}
