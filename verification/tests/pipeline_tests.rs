use beanbot::database::{state_default, Database};
use beanbot::tokenizer::command_split;
use beanbot::transaction::{record_year_month, BuildError, Date, Field, Posting, Transaction};
use beanbot::amount::Amount;

fn catalog() -> Vec<String> {
    vec![
        "Assets:Alipay",
        "Assets:Cash:CNY",
        "Expenses:Food:Outside",
        "Expenses:Home:Rent",
    ]
    .iter()
    .map(ToString::to_string)
    .collect()
}

fn today() -> Date {
    Date { year: 2024, month: 3, day: 5 }
}

#[test]
fn test_end_to_end_command() {
    let tokens = command_split(">公司\t#trip  '10 CNY' \tali \"food out\"  \t 'the rest'  ").unwrap();
    assert_eq!(
        tokens,
        vec![">公司", "#trip", "10 CNY", "ali", "food out", "the rest"]
    );
    let txn = Transaction::today_from_command(&tokens, &catalog(), "USD", today()).unwrap();
    assert_eq!(txn.payee.as_deref(), Some("公司"));
    assert_eq!(txn.tags, vec!["#trip".to_owned()]);
    assert_eq!(txn.narration, "the rest");
    assert_eq!(txn.date, today());
    assert_eq!(txn.postings.len(), 2);
    assert_eq!(txn.postings[0].account, "Expenses:Food:Outside");
    assert_eq!(txn.postings[0].amount.currency, "CNY");
    assert!(!txn.postings[0].amount.number.negative);
    assert_eq!(txn.postings[1].account, "Assets:Alipay");
    assert_eq!(txn.postings[1].amount.currency, "CNY");
    assert!(txn.postings[1].amount.number.negative);
    // the two legs net to zero: same magnitude, opposite sign
    assert_eq!(
        txn.postings[0].amount.number.mantissa,
        txn.postings[1].amount.number.mantissa
    );
    assert_eq!(
        txn.render(),
        "2024-03-05 * \"公司\" \"the rest\" #trip\n    Expenses:Food:Outside 10 CNY\n    Assets:Alipay -10 CNY\n"
    );
}

#[test]
fn test_narration_is_joined_remainder() {
    let tokens: Vec<String> = ["12.5", "alipay", "rent", "march", "and", "a half"]
        .iter()
        .map(ToString::to_string)
        .collect();
    let txn = Transaction::today_from_command(&tokens, &catalog(), "USD", today()).unwrap();
    assert_eq!(txn.narration, "march and a half");
    assert_eq!(txn.payee, None);
    assert!(txn.tags.is_empty());
}

#[test]
fn test_empty_narration_is_allowed() {
    let tokens: Vec<String> = ["5", "cash", "rent"].iter().map(ToString::to_string).collect();
    let txn = Transaction::today_from_command(&tokens, &catalog(), "USD", today()).unwrap();
    assert_eq!(txn.narration, "");
    assert_eq!(
        txn.render(),
        "2024-03-05 * \"\"\n    Expenses:Home:Rent 5 USD\n    Assets:Cash:CNY -5 USD\n"
    );
}

#[test]
fn test_missing_arguments_take_precedence() {
    let cat = catalog();
    let empty: Vec<String> = vec![];
    assert!(matches!(
        Transaction::today_from_command(&empty, &cat, "USD", today()).unwrap_err(),
        BuildError::NotEnoughArguments(Field::Amount)
    ));
    let one: Vec<String> = vec!["#tag".to_owned()];
    assert!(matches!(
        Transaction::today_from_command(&one, &cat, "USD", today()).unwrap_err(),
        BuildError::NotEnoughArguments(Field::Amount)
    ));
    let two: Vec<String> = vec!["10".to_owned(), "ali".to_owned()];
    assert!(matches!(
        Transaction::today_from_command(&two, &cat, "USD", today()).unwrap_err(),
        BuildError::NotEnoughArguments(Field::ExpenseAccount)
    ));
    let amount_only: Vec<String> = vec!["10".to_owned()];
    assert!(matches!(
        Transaction::today_from_command(&amount_only, &cat, "USD", today()).unwrap_err(),
        BuildError::NotEnoughArguments(Field::Account)
    ));
}

#[test]
fn test_invalid_amount_error_names_token() {
    let tokens: Vec<String> = ["ten", "ali", "food"].iter().map(ToString::to_string).collect();
    let err = Transaction::today_from_command(&tokens, &catalog(), "USD", today()).unwrap_err();
    match &err {
        BuildError::InvalidAmount(t) => assert_eq!(t, "ten"),
        other => panic!("expected InvalidAmount, got {:?}", other),
    }
    assert_eq!(err.message(), "Invalid amount ten");
}

#[test]
fn test_invalid_account_errors_are_wrapped() {
    let tokens: Vec<String> = ["10", "nosuch", "food"].iter().map(ToString::to_string).collect();
    let err = Transaction::today_from_command(&tokens, &catalog(), "USD", today()).unwrap_err();
    assert_eq!(err.message(), "Invalid spend account: No matched account");
    let tokens2: Vec<String> = ["10", "ali", "nosuch"].iter().map(ToString::to_string).collect();
    let err2 = Transaction::today_from_command(&tokens2, &catalog(), "USD", today()).unwrap_err();
    assert_eq!(err2.message(), "Invalid expense account: No matched account");
}

#[test]
fn test_posting_new_and_render() {
    let amount = Amount::from_str("3.50", "USD").unwrap();
    let p = Posting::new("Expenses:Food:Outside".to_owned(), amount);
    assert_eq!(p.render(), "Expenses:Food:Outside 3.50 USD");
}

#[test]
fn test_date_renders_zero_padded() {
    let tokens: Vec<String> = ["5", "cash", "rent"].iter().map(ToString::to_string).collect();
    let d = Date { year: 7, month: 1, day: 2 };
    let txn = Transaction::today_from_command(&tokens, &catalog(), "USD", d).unwrap();
    assert!(txn.render().starts_with("0007-01-02 *"));
}

#[test]
fn test_record_year_month() {
    let (y, m) = record_year_month("2024-03-05 * \"\"\n");
    assert_eq!(y, "2024");
    assert_eq!(m, "03");
}

#[test]
fn test_database_authorization() {
    let mut db = Database::default();
    assert!(!db.is_authorized(42));
    assert!(db.should_authorize(42, "sesame", "sesame"));
    assert!(!db.should_authorize(42, "wrong", "sesame"));
    db.authorize(42);
    assert!(db.is_authorized(42));
    assert!(!db.should_authorize(42, "sesame", "sesame"));
    assert_eq!(db.auth_users, vec![42]);
    assert_eq!(state_default(), "state.json");
}
