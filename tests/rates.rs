use novapay::{
    convert, Currency, LedgerError, Rate, RateError, RateTable, WalletService, RATE_SCALE,
};

fn scaled(num: u64) -> Rate {
    Rate { num, den: RATE_SCALE }
}

#[test]
fn newest_rate_wins() {
    let mut t = RateTable::new();
    assert_eq!(t.rate(Currency::Kes, Currency::Usd), Err(RateError::UnsupportedCurrencyPair));
    t.publish(Currency::Kes, Currency::Usd, 6_700);
    t.publish(Currency::Ugx, Currency::Usd, 270);
    assert_eq!(t.rate(Currency::Kes, Currency::Usd), Ok(scaled(6_700)));
    t.publish(Currency::Kes, Currency::Usd, 7_000);
    assert_eq!(t.rate(Currency::Kes, Currency::Usd), Ok(scaled(7_000)));
    assert_eq!(
        t.rate(Currency::Usd, Currency::Kes),
        Ok(Rate { num: RATE_SCALE, den: 7_000 })
    );
    assert_eq!(t.rate(Currency::Usd, Currency::Ugx), Ok(Rate { num: RATE_SCALE, den: 270 }));
    assert_eq!(t.rate(Currency::Usd, Currency::Tzs), Err(RateError::UnsupportedCurrencyPair));
    assert_eq!(t.rate(Currency::Tzs, Currency::Tzs), Ok(Rate { num: 1, den: 1 }));
}

#[test]
fn conversion_rounds_down() {
    assert_eq!(convert(1_000, scaled(6_700)), Some(6));
    assert_eq!(convert(1, scaled(8_330_000)), Some(8));
    assert_eq!(convert(0, scaled(123)), Some(0));
    assert_eq!(convert(u64::MAX, scaled(2 * RATE_SCALE)), None);
    assert_eq!(convert(u64::MAX, scaled(RATE_SCALE)), Some(u64::MAX));
    assert_eq!(convert(7, Rate { num: 1, den: 3 }), Some(2));
}

#[test]
fn standard_rates_convert_shillings() {
    let s = WalletService::new(RateTable::standard());
    assert_eq!(s.convert_xlm_to_kes(3), Ok(360));
    assert_eq!(s.convert_kes_to_xlm(1_200_000), Ok(10_000));
    assert_eq!(s.convert_kes_to_xlm(120), Ok(1));
    assert_eq!(s.convert_kes_to_xlm(119), Ok(0));
    for x in [0u64, 1, 7, 12_345, 1_000_000] {
        let kes = s.convert_xlm_to_kes(x).unwrap();
        assert_eq!(s.convert_kes_to_xlm(kes), Ok(x));
    }
    assert_eq!(s.convert(10_000, Currency::Ugx, Currency::Usd), Ok(2));
    assert_eq!(s.convert(5, Currency::Usd, Currency::Kes), Ok(746));
    assert_eq!(
        s.convert(5, Currency::Ugx, Currency::Kes),
        Err(LedgerError::UnsupportedCurrencyPair)
    );
}

#[test]
fn quote_fixes_rate_and_amount() {
    let s = WalletService::new(RateTable::standard());
    let (a, q) = s.quote(Currency::Usd, 100).unwrap();
    assert_eq!(a, 833);
    assert_eq!(q.rate, scaled(8_330_000));
    assert_eq!(q.from_currency, Currency::Usd);
    assert_eq!(q.to_currency, Currency::Xlm);
    assert_eq!(s.quote(Currency::Kes, 10), Err(LedgerError::InvalidRequest));
    assert_eq!(s.quote(Currency::Tzs, 1_000_000).unwrap().0, 3_332);
    let bare = WalletService::new(RateTable::new());
    assert_eq!(bare.quote(Currency::Tzs, 10), Err(LedgerError::UnsupportedCurrencyPair));
    assert_eq!(bare.quote(Currency::Xlm, 10).unwrap().0, 10);
}

#[test]
fn currency_codes() {
    assert_eq!(Currency::from_code("KES"), Some(Currency::Kes));
    assert_eq!(Currency::from_code("UGX"), Some(Currency::Ugx));
    assert_eq!(Currency::from_code("TZS"), Some(Currency::Tzs));
    assert_eq!(Currency::from_code("USD"), Some(Currency::Usd));
    assert_eq!(Currency::from_code("XLM"), Some(Currency::Xlm));
    assert_eq!(Currency::from_code("kes"), None);
    assert_eq!(Currency::from_code("EUR"), None);
    assert_eq!(Currency::from_code(""), None);
}
