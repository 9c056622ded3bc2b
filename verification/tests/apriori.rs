use numkit::apriori::{
    holds, holds_every, parse_transactions, split, support_count, FIELD_END, LINE_END,
};

fn bytes(text: &str) -> Vec<u8> {
    text.as_bytes().to_vec()
}

fn row(products: &[&str]) -> Vec<Vec<u8>> {
    products.iter().map(|p| bytes(p)).collect()
}

fn rows(transactions: &[&[&str]]) -> Vec<Vec<Vec<u8>>> {
    transactions.iter().map(|t| row(t)).collect()
}

fn store() -> Vec<Vec<Vec<u8>>> {
    rows(&[
        &["milk", "bread", "eggs"],
        &["milk", "bread"],
        &["bread"],
        &["eggs", "milk"],
        &["tea"],
    ])
}

#[test]
fn the_separators_are_the_line_feed_and_the_comma() {
    assert_eq!(LINE_END, b'\n');
    assert_eq!(FIELD_END, b',');
}

#[test]
fn split_gives_one_piece_more_than_there_are_separators() {
    assert_eq!(split(&bytes("a,b,c"), b','), row(&["a", "b", "c"]));
    assert_eq!(split(&bytes("abc"), b','), row(&["abc"]));
    assert_eq!(split(&bytes(""), b','), row(&[""]));
    assert_eq!(split(&bytes(","), b','), row(&["", ""]));
    assert_eq!(split(&bytes("a,,b"), b','), row(&["a", "", "b"]));
    assert_eq!(split(&bytes(",a,"), b','), row(&["", "a", ""]));
}

#[test]
fn split_agrees_with_the_standard_library() {
    for text in ["", "x", "one,two", ",,", "a\nb,c\n", "mineral water,ham,", "é,ü"] {
        for sep in [',', '\n'] {
            let expected: Vec<Vec<u8>> = text.split(sep).map(|p| bytes(p)).collect();
            assert_eq!(split(&bytes(text), sep as u8), expected);
        }
    }
}

#[test]
fn the_pieces_joined_give_the_text_back() {
    for text in ["", "x", "one,two", ",,", "a,,b,", ",a"] {
        let pieces = split(&bytes(text), b',');
        assert!(pieces.iter().all(|p| !p.contains(&b',')));
        assert_eq!(pieces.join(&b','), bytes(text));
    }
}

#[test]
fn transactions_start_after_the_first_line() {
    let text = "products\nmilk,bread\neggs\n";
    assert_eq!(
        parse_transactions(&bytes(text)),
        rows(&[&["milk", "bread"], &["eggs"]])
    );
}

#[test]
fn transactions_end_at_the_first_empty_line() {
    let text = "products\nmilk,bread\n\neggs\ntea";
    assert_eq!(parse_transactions(&bytes(text)), rows(&[&["milk", "bread"]]));
    assert_eq!(parse_transactions(&bytes("products\n\nmilk")), rows(&[]));
}

#[test]
fn a_text_of_one_line_or_none_holds_no_transaction() {
    assert_eq!(parse_transactions(&bytes("")), rows(&[]));
    assert_eq!(parse_transactions(&bytes("products")), rows(&[]));
    assert_eq!(parse_transactions(&bytes("products\n")), rows(&[]));
    assert_eq!(parse_transactions(&bytes("\n")), rows(&[]));
}

#[test]
fn a_last_line_without_a_line_end_counts() {
    assert_eq!(
        parse_transactions(&bytes("products\nmilk\ntea,ham")),
        rows(&[&["milk"], &["tea", "ham"]])
    );
}

#[test]
fn a_line_keeps_its_empty_and_its_repeated_products() {
    assert_eq!(
        parse_transactions(&bytes("products\nmilk,,milk,\n,")),
        rows(&[&["milk", "", "milk", ""], &["", ""]])
    );
}

#[test]
fn a_transaction_holds_its_products_and_no_others() {
    let transaction = row(&["milk", "bread", "eggs"]);
    assert!(holds(&transaction, &bytes("milk")));
    assert!(holds(&transaction, &bytes("eggs")));
    assert!(!holds(&transaction, &bytes("tea")));
    assert!(!holds(&transaction, &bytes("mil")));
    assert!(!holds(&transaction, &bytes("milk ")));
    assert!(!holds(&transaction, &bytes("")));
    assert!(!holds(&row(&[]), &bytes("milk")));
}

#[test]
fn a_transaction_holds_every_product_of_a_part_of_it() {
    let transaction = row(&["milk", "bread", "eggs"]);
    assert!(holds_every(&transaction, &row(&["eggs", "milk"])));
    assert!(holds_every(&transaction, &row(&["bread", "bread"])));
    assert!(holds_every(&transaction, &row(&[])));
    assert!(!holds_every(&transaction, &row(&["eggs", "tea"])));
    assert!(!holds_every(&row(&[]), &row(&["eggs"])));
    assert!(holds_every(&row(&[]), &row(&[])));
}

#[test]
fn support_counts_the_transactions_that_hold_all_the_products() {
    let transactions = store();
    assert_eq!(support_count(&row(&["milk"]), &transactions), 3);
    assert_eq!(support_count(&row(&["bread"]), &transactions), 3);
    assert_eq!(support_count(&row(&["milk", "bread"]), &transactions), 2);
    assert_eq!(support_count(&row(&["bread", "milk"]), &transactions), 2);
    assert_eq!(support_count(&row(&["milk", "bread", "eggs"]), &transactions), 1);
    assert_eq!(support_count(&row(&["tea", "milk"]), &transactions), 0);
    assert_eq!(support_count(&row(&["ham"]), &transactions), 0);
}

#[test]
fn no_products_are_held_by_every_transaction() {
    assert_eq!(support_count(&row(&[]), &store()), 5);
    assert_eq!(support_count(&row(&[]), &rows(&[])), 0);
    assert_eq!(support_count(&row(&["milk"]), &rows(&[])), 0);
}
