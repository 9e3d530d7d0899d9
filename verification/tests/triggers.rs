use plugin_host::triggers::{any_hit, any_matches, find, find_each, Search};

fn strings(v: &[&str]) -> Vec<String> {
    v.iter().map(|s| s.to_string()).collect()
}

#[test]
fn find_searches_with_the_pattern() {
    assert_eq!(find("^roll$", "roll"), Search::Found);
    assert_eq!(find("^roll$", "reroll"), Search::Absent);
    assert_eq!(find("roll", "reroll"), Search::Found);
    assert_eq!(find("", "anything"), Search::Found);
    assert_eq!(find("^(roll|dice)$", "dice"), Search::Found);
}

#[test]
fn find_depends_on_both_arguments() {
    // Neither the pattern nor the text handed back would give these.
    assert_eq!(find("a", "b"), Search::Absent);
    assert_eq!(find("b", "b"), Search::Found);
    assert_eq!(find("b", "a"), Search::Absent);
}

#[test]
fn malformed_pattern_is_refused() {
    assert_eq!(find("(", "("), Search::Refused);
    assert_eq!(find("a{2,1}", "aa"), Search::Refused);
    assert_eq!(find("[z-a]", "b"), Search::Refused);
}

#[test]
fn patterns_are_case_sensitive_unless_they_say_otherwise() {
    assert_eq!(find("^roll$", "Roll"), Search::Absent);
    assert_eq!(find("(?i)^roll$", "Roll"), Search::Found);
}

#[test]
fn find_each_keeps_the_order() {
    let patterns = strings(&["^a", "(", "b$", "c"]);
    assert_eq!(
        find_each(&patterns, "ab"),
        vec![Search::Found, Search::Refused, Search::Found, Search::Absent]
    );
    assert_eq!(find_each(&Vec::new(), "ab"), vec![]);
}

#[test]
fn any_hit_wants_one_match() {
    assert!(!any_hit(&vec![]));
    assert!(!any_hit(&vec![Search::Absent, Search::Refused]));
    assert!(any_hit(&vec![Search::Absent, Search::Found]));
    assert!(any_hit(&vec![Search::Found]));
}

#[test]
fn any_matches_skips_what_does_not_compile() {
    assert!(any_matches(&strings(&["(", "^roll$"]), "roll"));
    assert!(!any_matches(&strings(&["(", "^roll$"]), "ping"));
    assert!(!any_matches(&strings(&["("]), "("));
    assert!(!any_matches(&Vec::new(), "roll"));
}
