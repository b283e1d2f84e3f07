use beanbot::account::{account_matches, filter_account, last_component, search_accounts, FilterError};
use beanbot::catalog::accounts_from_lines;

fn catalog() -> Vec<String> {
    vec![
        "Assets:Cash:CNY",
        "Assets:Cash:USD",
        "Expenses:International:Fees",
        "Expenses:Food:Groceries",
        "Expenses:Health:Dental:Insurance",
        "Expenses:Health:Life:GroupTermLife",
        "Expenses:Health:Medical:Insurance",
        "Expenses:Health:Vision:Insurance",
        "Expenses:Home:Internet",
        "Expenses:Home:Phone",
        "Expenses:Home:Rent",
    ]
    .iter()
    .map(ToString::to_string)
    .collect()
}

#[test]
fn test_matches() {
    assert!(account_matches("Expenses:Transport:Public:Bus", "bus"));
    assert!(account_matches("Expenses:Transport:Bus", "transp bus"));
    assert!(account_matches("Expenses:Transport:Bus", " transp  bus "));
}

#[test]
fn test_filter() {
    let accounts = catalog();
    assert!(filter_account(&accounts, "insur", true)
        .unwrap_err()
        .message()
        .starts_with("More than one last-component matched account: "));
    assert!(filter_account(&accounts, "health", true)
        .unwrap_err()
        .message()
        .starts_with("More than one matched account: "));
    // whole account unique match
    assert_eq!(
        filter_account(&accounts, "dental", true).unwrap(),
        "Expenses:Health:Dental:Insurance"
    );
    // last component unique match
    assert_eq!(
        filter_account(&accounts, "inter", true).unwrap(),
        "Expenses:Home:Internet"
    );
    // multiple terms match
    assert_eq!(
        filter_account(&accounts, "med insur", true).unwrap(),
        "Expenses:Health:Medical:Insurance"
    );
}

#[test]
fn test_filter_no_match() {
    let accounts = catalog();
    let err = filter_account(&accounts, "nonexistent", true).unwrap_err();
    assert!(matches!(err, FilterError::NoMatch));
    assert_eq!(err.message(), "No matched account");
}

#[test]
fn test_filter_respects_expense_side() {
    let accounts = catalog();
    // "cash cny" resolves only among non-expense accounts
    assert_eq!(
        filter_account(&accounts, "cash cny", false).unwrap(),
        "Assets:Cash:CNY"
    );
    // and is absent from the expense side
    assert!(matches!(
        filter_account(&accounts, "cash cny", true).unwrap_err(),
        FilterError::NoMatch
    ));
}

#[test]
fn test_filter_ambiguous_messages_carry_candidates() {
    let accounts = catalog();
    let err = filter_account(&accounts, "insur", true).unwrap_err();
    match &err {
        FilterError::AmbiguousLeaf(v) => {
            assert_eq!(
                v,
                &vec![
                    "Expenses:Health:Dental:Insurance".to_owned(),
                    "Expenses:Health:Medical:Insurance".to_owned(),
                    "Expenses:Health:Vision:Insurance".to_owned(),
                ]
            );
        }
        other => panic!("expected AmbiguousLeaf, got {:?}", other),
    }
    assert_eq!(
        err.message(),
        "More than one last-component matched account: [\"Expenses:Health:Dental:Insurance\", \
         \"Expenses:Health:Medical:Insurance\", \"Expenses:Health:Vision:Insurance\"]"
    );
}

#[test]
fn test_last_component() {
    assert_eq!(last_component("Expenses:Home:Rent"), "Rent");
    assert_eq!(last_component("NoColon"), "NoColon");
    assert_eq!(last_component("Trailing:"), "");
}

#[test]
fn test_search_accounts() {
    let accounts = catalog();
    assert_eq!(
        search_accounts(&accounts, "home"),
        vec![
            "Expenses:Home:Internet".to_owned(),
            "Expenses:Home:Phone".to_owned(),
            "Expenses:Home:Rent".to_owned(),
        ]
    );
    // empty query keeps every account
    assert_eq!(search_accounts(&accounts, ""), accounts);
    // multiple subterms must all appear
    assert_eq!(
        search_accounts(&accounts, "cash usd"),
        vec!["Assets:Cash:USD".to_owned()]
    );
}

#[test]
fn test_accounts_from_lines() {
    let lines: Vec<String> = vec![
        "2020-01-01 open Assets:Cash",
        "; 2020-01-01 open Assets:Commented",
        "2020-01-01 close Assets:Old",
        "open Assets:TooShort",
        "",
        "2020-02-03 open Expenses:Food:Groceries CNY",
    ]
    .iter()
    .map(ToString::to_string)
    .collect();
    assert_eq!(
        accounts_from_lines(&lines),
        vec!["Assets:Cash".to_owned(), "Expenses:Food:Groceries".to_owned()]
    );
}
