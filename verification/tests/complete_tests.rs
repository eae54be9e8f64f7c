use pesh::completions_for;

#[test]
fn empty_key_offers_every_command() {
    assert_eq!(
        completions_for(""),
        vec!["set ", "del ", "get ", "help", "quit", "exit"]
    );
}

#[test]
fn single_letter_narrows() {
    assert_eq!(completions_for("s"), vec!["et "]);
    assert_eq!(completions_for("se"), vec!["t "]);
    assert_eq!(completions_for("h"), vec!["elp"]);
    assert_eq!(completions_for("e"), vec!["xit"]);
}

#[test]
fn shared_prefixes_offer_both() {
    // nothing starts with "a"; "q" names quit alone
    assert!(completions_for("a").is_empty());
    assert_eq!(completions_for("q"), vec!["uit"]);
}

#[test]
fn full_word_completes_to_nothing_left() {
    assert_eq!(completions_for("help"), vec![""]);
    assert!(completions_for("helpx").is_empty());
}
