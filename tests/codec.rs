use daemon::conf::Conf;
use daemon::ids::{IdError, OfferId};
use daemon::request::{AuthError, OfferRequest};
use daemon::statement::{is_amount, parse_csv, parse_line, split_text, trim_text};
use ed25519_dalek::{Signer, SigningKey};

#[test]
fn id_round_trip_on_boundaries() {
    for x in [0u64, 1, 255, 256, 1 << 32, u64::MAX - 1, u64::MAX] {
        let id = OfferId(x);
        let text = id.to_string();
        assert_eq!(OfferId::parse(&text), Ok(id));
    }
}

#[test]
fn id_text_is_base58_of_le_bytes() {
    assert_eq!(OfferId(0).to_string(), "11111111");
    assert_eq!(OfferId(1).to_string(), bs58::encode(1u64.to_le_bytes()).into_string());
    assert_ne!(OfferId(1).to_string(), OfferId(256).to_string());
}

#[test]
fn id_parse_errors() {
    assert_eq!(OfferId::parse("0OIl"), Err(IdError::NotBase58));
    assert_eq!(OfferId::parse("2"), Err(IdError::WrongLength));
    assert_eq!(OfferId::parse(""), Err(IdError::WrongLength));
}

#[test]
fn id_and_signed_key() {
    assert_eq!(i64::from(OfferId(7)), 7);
    assert_eq!(OfferId::from(7i64), OfferId(7));
    assert_eq!(OfferId::from(-1i64), OfferId(u64::MAX));
    assert_eq!(i64::from(OfferId(u64::MAX)), -1);
}

#[test]
fn csv_keeps_well_formed_lines() {
    let body = "# Date,Description,Amount,Account,Transaction ID\r\n\
                2024-01-02 , pay ACC-2 , -12.50 , ACC-1 , TX9 # note\r\n\
                a,b,c\n\
                1,2,x,4,5\n\
                1,2,3,4,5,6\n\
                2024-01-03,memo,+7,ACC-3,TX10";
    let records = parse_csv(body);
    assert_eq!(records.len(), 2);
    assert_eq!(records[0].date, "2024-01-02");
    assert_eq!(records[0].description, "pay ACC-2");
    assert_eq!(records[0].amount, "-12.50");
    assert_eq!(records[0].account, "ACC-1");
    assert_eq!(records[0].transaction_id, "TX9");
    assert_eq!(records[1].amount, "+7");
    assert_eq!(records[1].transaction_id, "TX10");
}

#[test]
fn csv_empty_and_comment_only() {
    assert!(parse_csv("").is_empty());
    assert!(parse_csv("\n\n# nothing\n").is_empty());
}

#[test]
fn line_and_amount_rules() {
    assert!(parse_line("d,x,1.5,a,t").is_some());
    assert!(parse_line("d,x,1.5.1,a,t").is_none());
    assert!(parse_line("d,x,,a,t").is_none());
    assert!(is_amount("0"));
    assert!(is_amount("-0.25"));
    assert!(is_amount(".5"));
    assert!(!is_amount("-"));
    assert!(!is_amount("."));
    assert!(!is_amount("1e5"));
    assert!(!is_amount(""));
}

#[test]
fn split_and_trim() {
    assert_eq!(split_text("a,,b", ','), vec!["a", "", "b"]);
    assert_eq!(split_text("", ','), vec![""]);
    assert_eq!(trim_text(" \t x y \u{3000}"), "x y");
    assert_eq!(trim_text("   "), "");
}

fn signed_request(amount: u128, bank: &str) -> OfferRequest {
    let key = SigningKey::from_bytes(&[7u8; 32]);
    let public_key = bs58::encode(key.verifying_key().to_bytes()).into_string();
    let text = format!("{}\n{}\n{}", amount, bank, public_key);
    let signature = bs58::encode(key.sign(text.as_bytes()).to_bytes()).into_string();
    OfferRequest { amount, bank_account: bank.to_string(), public_key, signature }
}

#[test]
fn authentic_request_is_accepted() {
    let req = signed_request(1234567890, "ES91 2100 0418");
    assert_eq!(req.cleartext(), format!("1234567890\nES91 2100 0418\n{}", req.public_key).into_bytes());
    assert_eq!(req.ensure_authentic(), Ok(()));
}

#[test]
fn tampered_request_is_rejected() {
    let mut req = signed_request(500, "BANK");
    req.amount = 501;
    assert_eq!(req.ensure_authentic(), Err(AuthError::Rejected));
}

#[test]
fn malformed_request_errors() {
    let good = signed_request(0, "BANK");
    let mut req = signed_request(0, "BANK");
    req.signature = "0OIl".to_string();
    assert_eq!(req.ensure_authentic(), Err(AuthError::SignatureNotBase58));
    let mut req = signed_request(0, "BANK");
    req.public_key = "0".to_string();
    assert_eq!(req.ensure_authentic(), Err(AuthError::PublicKeyNotBase58));
    let mut req = signed_request(0, "BANK");
    req.public_key = bs58::encode([1u8; 31]).into_string();
    assert_eq!(req.ensure_authentic(), Err(AuthError::PublicKeyLength));
    let mut req = signed_request(0, "BANK");
    req.signature = bs58::encode([1u8; 63]).into_string();
    assert_eq!(req.ensure_authentic(), Err(AuthError::SignatureLength));
    assert_eq!(good.ensure_authentic(), Ok(()));
}

#[test]
fn missing_settings_are_named() {
    let conf = Conf::new(Some([1u8; 32]), None, Some([2u8; 32]), None, None);
    assert_eq!(conf.missing_keys(), vec!["TOKEN_PROGRAM", "DD_MINT", "TREASURER_SECRET_KEY"]);
    assert!(conf.can_promote());
    assert!(!conf.can_release());
    assert_eq!(conf.program_id(), Some(&[1u8; 32]));
    let full = Conf::new(Some([1u8; 32]), Some([3u8; 32]), Some([2u8; 32]), Some([4u8; 32]), Some(vec![0u8; 64]));
    assert!(full.missing_keys().is_empty());
    assert!(full.can_release());
}
