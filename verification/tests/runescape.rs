use plugin_host::runescape::bosses::{boss_line, boss_names, bosses, BOSS_COUNT, BOSS_OFFSET};
use plugin_host::runescape::ge::{
    case_blind_pattern, ge, ge_entry, matching_items, price_change, remove_char, report,
    str_from_enum, GE_LIMIT,
};
use plugin_host::runescape::items::{
    is_none, Data, Ge, GeItem, GeItemPrice, Mapping, Price, StrOrNum,
};
use plugin_host::runescape::numbers::{to_decimal, with_commas};
use plugin_host::runescape::params::{
    contains, param_line, params, params_from, replace_char, to_lower_ascii,
};
use plugin_host::runescape::players::{callback_argument, count_digits, player_count};
use plugin_host::runescape::prices::{price_line, prices, prices_of, PRICE_LIMIT};
use plugin_host::text::lines_of;
use std::collections::HashMap;

const BAR: &str = "\x0314 | ";

fn mapping(items: &[(u32, &str)]) -> Vec<Mapping> {
    items.iter().map(|(id, name)| Mapping { id: *id, name: name.to_string() }).collect()
}

fn chars(s: &str) -> Vec<char> {
    s.chars().collect()
}

#[test]
fn decimal_notation() {
    assert_eq!(to_decimal(0), "0");
    assert_eq!(to_decimal(7), "7");
    assert_eq!(to_decimal(10), "10");
    assert_eq!(to_decimal(1055), "1055");
    assert_eq!(to_decimal(u32::MAX), "4294967295");
    for n in [9u32, 99, 100, 101, 12345, 1_000_000, 999_999_999] {
        assert_eq!(to_decimal(n), n.to_string());
    }
}

#[test]
fn thousands_are_set_apart() {
    assert_eq!(with_commas(0), "0");
    assert_eq!(with_commas(999), "999");
    assert_eq!(with_commas(1000), "1,000");
    assert_eq!(with_commas(1005), "1,005");
    assert_eq!(with_commas(166), "166");
    assert_eq!(with_commas(1234567), "1,234,567");
    assert_eq!(with_commas(100000), "100,000");
    assert_eq!(with_commas(u32::MAX), "4,294,967,295");
}

#[test]
fn unknown_price() {
    assert!(is_none(&None));
    assert!(!is_none(&Some(0)));
}

#[test]
fn price_as_text() {
    assert_eq!(str_from_enum(StrOrNum::Str("10.2k")), "10.2k");
    assert_eq!(str_from_enum(StrOrNum::Num(0)), "0");
    assert_eq!(str_from_enum(StrOrNum::Num(1204)), "1204");
}

#[test]
fn remove_char_takes_every_one() {
    assert_eq!(remove_char("- 1.2k ", ' '), "-1.2k");
    assert_eq!(remove_char("", ' '), "");
    assert_eq!(remove_char("   ", ' '), "");
    assert_eq!(remove_char("a,b,,c", ','), "abc");
}

fn today(trend: &str, price: StrOrNum<'static>) -> GeItemPrice<'static> {
    GeItemPrice { trend: trend.to_string(), price }
}

#[test]
fn change_follows_the_trend() {
    assert_eq!(
        price_change(&today("neutral", StrOrNum::Num(0))),
        "\x0314(\x0304\x03070\x0307\u{25ac}\x0314)"
    );
    assert_eq!(
        price_change(&today("positive", StrOrNum::Str("+12"))),
        "\x0314(\x0304\x0303+12\x0303\u{25b2}\x0314)"
    );
    assert_eq!(
        price_change(&today("negative", StrOrNum::Str("- 1,204"))),
        "\x0314(\x0304\x0305-1,204\x0305\u{25bc}\x0314)"
    );
    assert_eq!(price_change(&today("sideways", StrOrNum::Num(5))), "\x0314(\x0304\x0314)");
}

fn item(current: StrOrNum<'static>, trend: &str, change: StrOrNum<'static>) -> Ge<'static> {
    Ge {
        item: GeItem {
            icon: String::new(),
            icon_large: String::new(),
            id: 1055,
            item_type: "Default".to_string(),
            type_icon: String::new(),
            name: "Blue halloween mask".to_string(),
            description: "Aaaarrrghhh ... I'm a monster.".to_string(),
            current: GeItemPrice { trend: "neutral".to_string(), price: current },
            today: GeItemPrice { trend: trend.to_string(), price: change },
            members: "false".to_string(),
        },
    }
}

#[test]
fn exchange_entry() {
    let ge = item(StrOrNum::Str("10.2k"), "neutral", StrOrNum::Num(0));
    assert_eq!(
        ge_entry("Blue halloween mask", &ge.item),
        "\x0314Blue halloween mask: \x030410.2k\x0314gp \x0314(\x0304\x03070\x0307\u{25ac}\x0314)"
    );
}

#[test]
fn exchange_answer() {
    assert_eq!(ge(&vec![]), Err(()));
    let found = vec![
        ("Blue mask".to_string(), item(StrOrNum::Str("10.2k"), "neutral", StrOrNum::Num(0))),
        ("Red mask".to_string(), item(StrOrNum::Num(95), "positive", StrOrNum::Str("+2"))),
    ];
    assert_eq!(
        ge(&found),
        Ok(format!(
            "\x0314[\x0304Grand Exchange\x0314] \x0314Blue mask: \x030410.2k\x0314gp \x0314(\x0304\x03070\x0307\u{25ac}\x0314){}\x0314Red mask: \x030495\x0314gp \x0314(\x0304\x0303+2\x0303\u{25b2}\x0314)",
            BAR
        ))
    );
}

#[test]
fn answer_behind_its_label() {
    assert_eq!(report("T", &vec![]), Err(()));
    assert_eq!(report("T", &vec!["x".to_string()]), Ok("\x0314[\x0304T\x0314] x".to_string()));
    assert_eq!(
        report("T", &vec!["one".to_string(), "two".to_string()]),
        Ok(format!("\x0314[\x0304T\x0314] one{}two", BAR))
    );
}

#[test]
fn case_blind() {
    assert_eq!(case_blind_pattern("rune"), "(?i)rune");
}

#[test]
fn items_are_found_by_name() {
    let list = mapping(&[(1, "Rune axe"), (2, "Iron axe"), (3, "RUNE SWORD"), (4, "prune")]);
    assert_eq!(
        matching_items("rune", &list, GE_LIMIT),
        Some(mapping(&[(1, "Rune axe"), (3, "RUNE SWORD"), (4, "prune")]))
    );
    assert_eq!(matching_items("^rune", &list, GE_LIMIT), Some(mapping(&[(1, "Rune axe"), (3, "RUNE SWORD")])));
    assert_eq!(matching_items("dragon", &list, GE_LIMIT), Some(vec![]));
    assert_eq!(matching_items("", &Vec::new(), GE_LIMIT), Some(vec![]));
}

#[test]
fn items_stop_at_the_limit() {
    let names: Vec<String> = (0..20).map(|i| format!("item {}", i)).collect();
    let list: Vec<Mapping> =
        names.iter().enumerate().map(|(i, n)| Mapping { id: i as u32, name: n.clone() }).collect();
    assert_eq!(matching_items("item", &list, GE_LIMIT).unwrap(), list[..6].to_vec());
    assert_eq!(matching_items("item", &list, PRICE_LIMIT).unwrap(), list[..10].to_vec());
    assert_eq!(matching_items("item", &list, 0).unwrap(), vec![]);
}

#[test]
fn query_that_is_no_pattern_finds_nothing() {
    let list = mapping(&[(1, "Rune axe")]);
    assert_eq!(matching_items("(", &list, GE_LIMIT), None);
    assert_eq!(matching_items("(", &Vec::new(), GE_LIMIT), None);
}

fn data(entries: &[(u32, Option<u32>)]) -> Data {
    let mut map = HashMap::new();
    for (id, high) in entries {
        map.insert(*id, Price { high: *high, low: None });
    }
    Data { data: map }
}

#[test]
fn price_entry() {
    assert_eq!(
        price_line("Rune axe", &Price { high: Some(7210), low: Some(7000) }),
        "\x0314Rune axe: \x03047,210\x0314gp"
    );
    assert_eq!(
        price_line("Rune axe", &Price { high: None, low: Some(7000) }),
        "\x0314Rune axe: \x03040\x0314gp"
    );
}

#[test]
fn prices_of_the_items_found() {
    let list = mapping(&[(1, "Rune axe"), (2, "Iron axe"), (3, "Rune sword")]);
    let d = data(&[(1, Some(7210)), (2, Some(30)), (3, None)]);
    assert_eq!(
        prices("rune", &list, &d),
        Ok(format!(
            "\x0314[\x0304Price\x0314] \x0314Rune axe: \x03047,210\x0314gp{}\x0314Rune sword: \x03040\x0314gp",
            BAR
        ))
    );
    assert_eq!(prices("iron", &list, &d), Ok("\x0314[\x0304Price\x0314] \x0314Iron axe: \x030430\x0314gp".to_string()));
}

#[test]
fn prices_fail() {
    let list = mapping(&[(1, "Rune axe"), (2, "Iron axe")]);
    let d = data(&[(1, Some(7210))]);
    // No name matches.
    assert_eq!(prices("dragon", &list, &d), Err(()));
    // The query is no pattern.
    assert_eq!(prices("(", &list, &d), Err(()));
    // An item that matches has no price.
    assert_eq!(prices("axe", &list, &d), Err(()));
    assert_eq!(prices_of(&Vec::new(), &d), Err(()));
    assert_eq!(prices_of(&mapping(&[(9, "x")]), &d), Err(()));
}

#[test]
fn price_beyond_the_limit_is_not_asked_for() {
    let mut list: Vec<Mapping> =
        (0..10).map(|i| Mapping { id: i, name: format!("axe {}", i) }).collect();
    list.push(Mapping { id: 99, name: "axe without price".to_string() });
    let entries: Vec<(u32, Option<u32>)> = (0..10).map(|i| (i, Some(i))).collect();
    let out = prices("axe", &list, &data(&entries)).unwrap();
    assert_eq!(out.matches(BAR).count(), 9);
    assert!(!out.contains("without"));
}

#[test]
fn ascii_lowercase() {
    assert_eq!(to_lower_ascii("Rune_AXE é É"), chars("rune_axe é É"));
    assert_eq!(to_lower_ascii(""), chars(""));
    assert_eq!(to_lower_ascii("@[`{AZ"), chars("@[`{az"));
}

#[test]
fn characters_are_replaced() {
    assert_eq!(replace_char(&chars("a b  c"), ' ', '_'), chars("a_b__c"));
    assert_eq!(replace_char(&chars(""), ' ', '_'), chars(""));
}

#[test]
fn part_of_a_text() {
    assert!(contains(&chars("rune axe"), &chars("ne a")));
    assert!(contains(&chars("rune axe"), &chars("")));
    assert!(contains(&chars("rune axe"), &chars("rune axe")));
    assert!(contains(&chars("aab"), &chars("ab")));
    assert!(!contains(&chars("rune axe"), &chars("axes")));
    assert!(!contains(&chars(""), &chars("a")));
    assert!(contains(&chars(""), &chars("")));
}

#[test]
fn table_row() {
    assert_eq!(param_line("Rune_axe", "12.5"), "\x0314Rune axe: \x030412.5xp");
}

fn rows(v: &[(&str, &str)]) -> Vec<(String, String)> {
    v.iter().map(|(k, v)| (k.to_string(), v.to_string())).collect()
}

#[test]
fn rows_that_answer() {
    let table = rows(&[("Oak_logs", "37.5"), ("Willow_logs", "67.5"), ("Oak_plank", "0")]);
    assert_eq!(
        params_from(&table, "woodcutting", "oak"),
        Ok(format!(
            "\x0314[\x0304Woodcutting\x0314] \x0314Oak logs: \x030437.5xp{}\x0314Oak plank: \x03040xp",
            BAR
        ))
    );
    assert_eq!(
        params_from(&table, "WOODCUTTING", "Willow Logs"),
        Ok("\x0314[\x0304Woodcutting\x0314] \x0314Willow logs: \x030467.5xp".to_string())
    );
    assert_eq!(params_from(&table, "woodcutting", "yew"), Err(()));
    assert_eq!(params_from(&Vec::new(), "woodcutting", ""), Err(()));
}

#[test]
fn rows_stop_at_the_limit() {
    let table: Vec<(String, String)> =
        (0..15).map(|i| (format!("log_{}", i), i.to_string())).collect();
    let out = params_from(&table, "x", "log").unwrap();
    assert_eq!(out.matches(BAR).count(), 9);
    assert!(out.contains("log 9:"));
    assert!(!out.contains("log 10:"));
}

#[test]
fn rows_come_from_the_section_of_the_skill() {
    let db = ini::Ini::load_from_str(
        "[Woodcutting]\nOak_logs=37.5\nWillow_logs=67.5\n[Mining]\nIron_ore=35\nOak_ore=1\n",
    )
    .unwrap();
    assert_eq!(
        params(&db, "woodcutting", "oak"),
        Ok("\x0314[\x0304Woodcutting\x0314] \x0314Oak logs: \x030437.5xp".to_string())
    );
    assert_eq!(
        params(&db, "mining", "o"),
        Ok(format!(
            "\x0314[\x0304Mining\x0314] \x0314Iron ore: \x030435xp{}\x0314Oak ore: \x03041xp",
            BAR
        ))
    );
    assert_eq!(params(&db, "fishing", "oak"), Err(()));
    assert_eq!(params(&db, "mining", "willow"), Err(()));
}

#[test]
fn lines_as_the_standard_library_cuts_them() {
    for text in ["", "a", "a\n", "a\nb", "a\r\nb\r\n", "a\r", "\n", "\n\n", "a\n\nb\n", "\r\n", "a\r\r\n", "x\r\ny\r"] {
        let expected: Vec<String> = text.lines().map(|l| l.to_string()).collect();
        assert_eq!(lines_of(text), expected, "text {:?}", text);
    }
}

fn hiscores(boss_lines: &[&str]) -> String {
    let mut text = String::new();
    for i in 0..BOSS_OFFSET {
        text.push_str(&format!("{},{},{}\n", i, 99, 13034431));
    }
    for l in boss_lines {
        text.push_str(l);
        text.push('\n');
    }
    text
}

#[test]
fn boss_table_is_complete() {
    let names = boss_names();
    assert_eq!(names.len(), BOSS_COUNT);
    assert_eq!(names[0], "Abyssal Sire");
    assert_eq!(names[49], "Zulrah");
}

#[test]
fn boss_entry() {
    assert_eq!(boss_line("Zulrah", "1200", "55"), "\x0314Zulrah: \x030455 \x0314(\x03041200\x0314)");
}

#[test]
fn bosses_that_the_player_is_ranked_for() {
    let text = hiscores(&["-1,-1", "4021,133", "-1,-1", "77,1"]);
    assert_eq!(
        bosses(&text),
        Some(format!(
            "\x0314[\x0304Boss\x0314] \x0314Alchemical Hydra: \x0304133 \x0314(\x03044021\x0314){}\x0314Bryophyta: \x03041 \x0314(\x030477\x0314)",
            BAR
        ))
    );
}

#[test]
fn player_without_kills_gets_the_bare_label() {
    assert_eq!(bosses(&hiscores(&["-1,-1", "-1,-1"])), Some("\x0314[\x0304Boss\x0314] ".to_string()));
    assert_eq!(bosses(""), Some("\x0314[\x0304Boss\x0314] ".to_string()));
    assert_eq!(bosses("garbage\nwithout\ncommas"), Some("\x0314[\x0304Boss\x0314] ".to_string()));
}

#[test]
fn hiscores_that_cannot_be_read() {
    // A boss line without a count.
    assert_eq!(bosses(&hiscores(&["4021"])), None);
    // More lines than bosses.
    let many: Vec<&str> = (0..BOSS_COUNT + 1).map(|_| "1,1").collect();
    assert_eq!(bosses(&hiscores(&many)), None);
    // Lines past the last boss that say "not ranked" are passed over.
    let mut padded: Vec<&str> = (0..BOSS_COUNT).map(|_| "-1,-1").collect();
    padded.push("-1,-1");
    assert!(bosses(&hiscores(&padded)).is_some());
}

#[test]
fn last_boss_line_is_read() {
    let mut lines: Vec<&str> = (0..BOSS_COUNT - 1).map(|_| "-1,-1").collect();
    lines.push("9,8,7");
    assert_eq!(
        bosses(&hiscores(&lines)),
        Some("\x0314[\x0304Boss\x0314] \x0314Zulrah: \x03048 \x0314(\x03049\x0314)".to_string())
    );
}

#[test]
fn callback_argument_is_cut_out() {
    assert_eq!(callback_argument("jQuery360_1645(127551);"), Some("127551".to_string()));
    assert_eq!(callback_argument("f(1,234);"), Some("1,234".to_string()));
    assert_eq!(callback_argument("f(a(b);"), Some("a".to_string()));
    assert_eq!(callback_argument("no call;"), None);
    assert_eq!(callback_argument("f()"), None);
    assert_eq!(callback_argument("f();"), Some("".to_string()));
    assert_eq!(callback_argument(""), None);
    assert_eq!(callback_argument("("), None);
}

#[test]
fn commas_are_taken_out_of_a_count() {
    assert_eq!(count_digits("81,203"), "81203");
    assert_eq!(count_digits("296,907,582"), "296907582");
    assert_eq!(count_digits("7"), "7");
}

#[test]
fn count_is_read_from_the_page() {
    let page = "<div><p class='player-count'>There are currently 81,203 people playing!</p></div>";
    assert_eq!(player_count(page), Some("81,203".to_string()));
    assert_eq!(player_count("<p class='player-count'>There are currently  people playing!</p>"), None);
    assert_eq!(player_count("nothing here"), None);
    assert_eq!(player_count(""), None);
}
