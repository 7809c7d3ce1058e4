use steam_language::confirmation::{
    Confirmation, ConfirmationDetails, ConfirmationMethod, Confirmations, EConfirmationType,
};

fn get_confirmations() -> Confirmations {
    let mut vec = Vec::new();
    vec.push(Confirmation {
        id: "7676451136".to_string(),
        key: "18064583892738866189".to_string(),
        kind: EConfirmationType::Trade,
        details: Some(ConfirmationDetails { trade_offer_id: Some(4009687284) }),
    });
    vec.push(Confirmation {
        id: "7652515663".to_string(),
        key: "10704556181383316145".to_string(),
        kind: EConfirmationType::Trade,
        details: Some(ConfirmationDetails { trade_offer_id: Some(4000980011) }),
    });
    vec.push(Confirmation {
        id: "7652555421".to_string(),
        key: "10704556181383323456".to_string(),
        kind: EConfirmationType::Trade,
        details: Some(ConfirmationDetails { trade_offer_id: Some(4000793103) }),
    });
    vec.push(Confirmation {
        id: "7652515663".to_string(),
        key: "20845677815483316145".to_string(),
        kind: EConfirmationType::Market,
        details: None,
    });
    Confirmations::from(vec)
}

#[test]
fn filter_confirmation_type() {
    let mut confirmations = get_confirmations();
    assert_eq!(confirmations.0.len(), 4);
    confirmations.filter_by_confirmation_type(EConfirmationType::Market);
    assert_eq!(confirmations.0.len(), 1);
}

#[test]
fn has_tradeoffer_id() {
    let confirmations = get_confirmations();
    assert!(confirmations.has_trade_offer_id(4000980011));
    assert!(!confirmations.has_trade_offer_id(4000793104));
}

#[test]
fn filter_trade_offer_id() {
    let mut confirmations = get_confirmations();
    let first = 4009687284;
    let second = 4000793103;
    let third = 33311221; // no existant
    let tradeoffer_id = vec![first, second, third];

    let details_0 = ConfirmationDetails { trade_offer_id: Some(first) };
    let details_1 = ConfirmationDetails { trade_offer_id: Some(second) };

    confirmations.filter_by_trade_offer_ids(&tradeoffer_id);
    assert_eq!(confirmations.0.get(0).unwrap().details, Some(details_0));
    assert_eq!(confirmations.0.get(1).unwrap().details, Some(details_1));
    assert_eq!(confirmations.0.get(2), None);
}

#[test]
fn filter_by_type_keeps_order() {
    let mut confirmations = get_confirmations();
    confirmations.filter_by_confirmation_type(EConfirmationType::Trade);
    let ids: Vec<&str> = confirmations.0.iter().map(|c| c.key.as_str()).collect();
    assert_eq!(ids, vec!["18064583892738866189", "10704556181383316145", "10704556181383323456"]);
    confirmations.filter_by_confirmation_type(EConfirmationType::Generic);
    assert!(confirmations.0.is_empty());
}

#[test]
fn filter_by_ids_drops_missing_offer_id() {
    let mut confirmations = Confirmations::from(vec![Confirmation {
        id: "1".to_string(),
        key: "2".to_string(),
        kind: EConfirmationType::Generic,
        details: Some(ConfirmationDetails { trade_offer_id: None }),
    }]);
    confirmations.filter_by_trade_offer_ids(&[1, 2, 3]);
    assert!(confirmations.0.is_empty());
}

#[test]
fn empty_confirmations() {
    let mut confirmations = Confirmations::default();
    assert!(!confirmations.has_trade_offer_id(1));
    confirmations.filter_by_trade_offer_ids(&[]);
    assert!(confirmations.0.is_empty());
}

#[test]
fn confirmation_type_from_text() {
    assert_eq!(EConfirmationType::parse("0"), Ok(EConfirmationType::Unknown));
    assert_eq!(EConfirmationType::parse("1"), Ok(EConfirmationType::Generic));
    assert_eq!(EConfirmationType::parse("2"), Ok(EConfirmationType::Trade));
    assert_eq!(EConfirmationType::parse("+3"), Ok(EConfirmationType::Market));
    assert_eq!(EConfirmationType::parse("5"), Ok(EConfirmationType::PhoneNumberChange));
    assert_eq!("6".parse::<EConfirmationType>(), Ok(EConfirmationType::AccountRecovery));
    assert_eq!(EConfirmationType::parse("4"), Err(()));
    assert_eq!(EConfirmationType::parse("abc"), Err(()));
    assert_eq!(EConfirmationType::parse(""), Err(()));
    assert_eq!(EConfirmationType::parse("+"), Err(()));
    assert_eq!(EConfirmationType::parse("4294967298"), Err(()));
    assert_eq!(EConfirmationType::from_number(7), None);
}

#[test]
fn u32_parsing() {
    assert_eq!(steam_language::confirmation::parse_u32("4294967295"), Some(4294967295));
    assert_eq!(steam_language::confirmation::parse_u32("4294967296"), None);
    assert_eq!(steam_language::confirmation::parse_u32("007"), Some(7));
    assert_eq!(steam_language::confirmation::parse_u32("-1"), None);
    assert_eq!(steam_language::confirmation::parse_u32(" 1"), None);
}

#[test]
fn confirmation_method_words() {
    assert_eq!(ConfirmationMethod::Accept.value(), "allow");
    assert_eq!(ConfirmationMethod::Deny.value(), "cancel");
}
