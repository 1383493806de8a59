//! Name normalization and the person-name distance.

use ino_checker::name_checker;
use ino_checker::new_name_checker::NameChecker;
use ino_checker::interface::SmartNameChecker;

#[test]
fn normalize_text_folds_and_strips() {
    assert_eq!(name_checker::normalize_text("  Иван   ПЕТРОВ. "), "иван петров");
    assert_eq!(name_checker::normalize_text("\"Ваня\""), "ваня");
    assert_eq!(name_checker::normalize_text(""), "");
}

#[test]
fn normalize_surname_strips_declension_endings() {
    assert_eq!(name_checker::normalize_surname("толстой"), "толсто");
    assert_eq!(name_checker::normalize_surname("толстая"), "толста");
    assert_eq!(name_checker::normalize_surname("иванов"), "иванов");
    assert_eq!(name_checker::normalize_surname("ой"), "о");
    assert_eq!(name_checker::normalize_surname("я"), "я");
}

#[test]
fn split_name_takes_last_token_and_initials() {
    let (surname, initials) = name_checker::split_name("иван иванович петров");
    assert_eq!(surname, "петров");
    assert_eq!(initials, "ии");

    let (s2, i2) = name_checker::split_name("");
    assert_eq!(s2, "");
    assert_eq!(i2, "");
}

#[test]
fn aliases_come_from_quotes() {
    let nc = NameChecker::new();
    let aliases = nc.extract_aliases("Иванов \"Ваня\" \"Ванька\" Петр");
    let rendered: Vec<String> = aliases.iter().map(|a| a.iter().collect()).collect();
    assert_eq!(rendered, vec!["Ваня".to_string(), "Ванька".to_string()]);
}

#[test]
fn unclosed_quote_yields_no_alias() {
    let nc = NameChecker::new();
    assert_eq!(nc.extract_aliases("Иванов \"Ваня").len(), 0);
    assert_eq!(nc.extract_aliases("\"\"").len(), 0);
}

#[test]
fn identical_names_have_zero_person_distance() {
    assert_eq!(name_checker::compare_names("иванов", "иванов"), 0);
    let nc = NameChecker::new();
    assert_eq!(nc.compare_names("иванов", "иванов"), 0);
}

#[test]
fn comparator_folds_case_where_free_function_does_not() {
    let nc = NameChecker::new();
    // the alias surname keeps its raw case; only the folding comparator
    // erases the difference
    let folded = nc.compare_names("ваня", "\"Ваня\"");
    let raw = name_checker::compare_names("ваня", "\"Ваня\"");
    assert!(folded <= raw);
}
