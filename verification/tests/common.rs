use plugin_host::common::{c1, c2, c3, c4, c5, capitalize, l, p};

#[test]
fn colours() {
    assert_eq!(c1("x"), "\x0314x");
    assert_eq!(c2("x"), "\x0304x");
    assert_eq!(c3("x"), "\x0305x");
    assert_eq!(c4("x"), "\x0303x");
    assert_eq!(c5("x"), "\x0307x");
    assert_eq!(c1(""), "\x0314");
}

#[test]
fn brackets_and_parentheses() {
    assert_eq!(l("Boss"), "\x0314[\x0304Boss\x0314]");
    assert_eq!(p("12"), "\x0314(\x030412\x0314)");
    assert_eq!(l(""), "\x0314[\x0304\x0314]");
}

#[test]
fn capitalize_sets_the_case() {
    assert_eq!(capitalize("attack"), "Attack");
    assert_eq!(capitalize("ATTACK"), "Attack");
    assert_eq!(capitalize("aTtAcK"), "Attack");
    assert_eq!(capitalize(""), "");
    assert_eq!(capitalize("x"), "X");
    assert_eq!(capitalize("9lives"), "9lives");
}

#[test]
fn capitalize_follows_unicode() {
    assert_eq!(capitalize("éCOLE"), "École");
    // One character can become several.
    assert_eq!(capitalize("ßa"), "SSa");
    assert_eq!(capitalize("aİ"), "Ai\u{307}");
}
