//! The boss command: the kill counts of a player, read from the lines of
//! the hiscores.

use vstd::prelude::*;
use vstd::string::StringExecFns;
use crate::common::{c1, c2, coloured, enclosed, l, p};
use crate::runescape::ge::bar;
use crate::text::{
    chars_of, join, join_strings, lemma_split_len, lines_of, same_text, split, split_chars,
    text_lines, texts,
};

verus! {

/// The number of lines of the hiscores that stand before the first boss.
pub const BOSS_OFFSET: usize = 38;

/// The number of bosses.
pub const BOSS_COUNT: usize = 50;

/// The bosses, in the order of their lines.
pub open spec fn boss_table() -> Seq<Seq<char>> {
    seq![
        "Abyssal Sire"@,
        "Alchemical Hydra"@,
        "Barrows Chests"@,
        "Bryophyta"@,
        "Callisto"@,
        "Cerberus"@,
        "Chambers of Xeric"@,
        "Chambers of Xeric: Challenge Mode"@,
        "Chaos Elemental"@,
        "Chaos Fanatic"@,
        "Commander Zilyana"@,
        "Corporal Beast"@,
        "Dagannoth Prime"@,
        "Dagannoth Rex"@,
        "Dagannoth Supreme"@,
        "Crazy Archaeologist"@,
        "Deranged Archaeologist"@,
        "General Graardor"@,
        "Giant Mole"@,
        "Grotesque Guardians"@,
        "Hespori"@,
        "Kalphite Queen"@,
        "King Black Dragon"@,
        "Kraken"@,
        "Kree'Arra"@,
        "K'ril Tsutsaroth"@,
        "Mimic"@,
        "Nex"@,
        "Nightmare"@,
        "Phosani's Nightmare"@,
        "Obor"@,
        "Sarachnis"@,
        "Scorpia"@,
        "Skotizo"@,
        "Tempoross"@,
        "The Guantlet"@,
        "The Corrupted Gauntlet"@,
        "Theatre of Blood"@,
        "Theatre of Blood: Hard Mode"@,
        "Thermonuclear Smoke Devil"@,
        "Tombs of Amascut"@,
        "Tombs of Amascut: Expert Mode"@,
        "TzKal-Zuk"@,
        "TzTok-Jad"@,
        "Venenatis"@,
        "Vet'ion"@,
        "Vorkath"@,
        "Wintertodt"@,
        "Zalcano"@,
        "Zulrah"@,
    ]
}

/// The bosses, in the order of their lines.
pub fn boss_names() -> (out: Vec<&'static str>)
    ensures
        out@.len() == BOSS_COUNT,
        forall|i: int| 0 <= i < BOSS_COUNT ==> (#[trigger] out@[i])@ == boss_table()[i],
{
    vec![
        "Abyssal Sire",
        "Alchemical Hydra",
        "Barrows Chests",
        "Bryophyta",
        "Callisto",
        "Cerberus",
        "Chambers of Xeric",
        "Chambers of Xeric: Challenge Mode",
        "Chaos Elemental",
        "Chaos Fanatic",
        "Commander Zilyana",
        "Corporal Beast",
        "Dagannoth Prime",
        "Dagannoth Rex",
        "Dagannoth Supreme",
        "Crazy Archaeologist",
        "Deranged Archaeologist",
        "General Graardor",
        "Giant Mole",
        "Grotesque Guardians",
        "Hespori",
        "Kalphite Queen",
        "King Black Dragon",
        "Kraken",
        "Kree'Arra",
        "K'ril Tsutsaroth",
        "Mimic",
        "Nex",
        "Nightmare",
        "Phosani's Nightmare",
        "Obor",
        "Sarachnis",
        "Scorpia",
        "Skotizo",
        "Tempoross",
        "The Guantlet",
        "The Corrupted Gauntlet",
        "Theatre of Blood",
        "Theatre of Blood: Hard Mode",
        "Thermonuclear Smoke Devil",
        "Tombs of Amascut",
        "Tombs of Amascut: Expert Mode",
        "TzKal-Zuk",
        "TzTok-Jad",
        "Venenatis",
        "Vet'ion",
        "Vorkath",
        "Wintertodt",
        "Zalcano",
        "Zulrah",
    ]
}

/// Whether the line with the number `index` can be read: it stands before
/// the bosses, or says that the player is not ranked, or is the line of a
/// boss and holds a rank and a count.
pub open spec fn readable_line(index: int, line: Seq<char>) -> bool {
    let fields = split(line, ',');
    ||| index < BOSS_OFFSET
    ||| fields[0] == "-1"@
    ||| (index - BOSS_OFFSET < BOSS_COUNT && fields.len() >= 2)
}

/// Whether every line can be read.
pub open spec fn readable(lines: Seq<Seq<char>>) -> bool {
    forall|i: int| 0 <= i < lines.len() ==> readable_line(i, #[trigger] lines[i])
}

/// The entry of one boss: its name, the count and, in parentheses, the rank.
pub open spec fn boss_entry(name: Seq<char>, rank: Seq<char>, kills: Seq<char>) -> Seq<char> {
    coloured('1', '4', name) + ": "@ + coloured('0', '4', kills) + seq![' '] + enclosed(
        '(',
        ')',
        rank,
    )
}

/// The entries of the bosses that the player is ranked for, in the order of
/// the lines.
pub open spec fn boss_entries(lines: Seq<Seq<char>>) -> Seq<Seq<char>>
    decreases lines.len(),
{
    if lines.len() == 0 {
        Seq::empty()
    } else {
        let before = boss_entries(lines.drop_last());
        let index = lines.len() - 1;
        let fields = split(lines.last(), ',');
        if index >= BOSS_OFFSET && fields[0] != "-1"@ {
            before.push(boss_entry(boss_table()[index - BOSS_OFFSET], fields[0], fields[1]))
        } else {
            before
        }
    }
}

/// The answer of the boss command.
pub open spec fn boss_text(lines: Seq<Seq<char>>) -> Seq<char> {
    enclosed('[', ']', "Boss"@) + seq![' '] + join(boss_entries(lines), bar())
}

/// The entry of one boss.
pub fn boss_line(name: &str, rank: &str, kills: &str) -> (out: String)
    ensures
        out@ == boss_entry(name@, rank@, kills@),
{
    let mut out = c1(name);
    out.append(": ");
    out.append(c2(kills).as_str());
    out.push(' ');
    out.append(p(rank).as_str());
    out
}

/// The answer of the boss command, from the text of a player's hiscores:
/// the lines from `BOSS_OFFSET` on stand for the bosses, in order, and hold
/// a rank and a count, or a rank of -1 where the player is not ranked.
/// Nothing where a line cannot be read: it stands past the last boss, or
/// holds no count.
pub fn bosses(text: &str) -> (r: Option<String>)
    ensures
        r is Some <==> readable(text_lines(text@)),
        r matches Some(out) ==> out@ == boss_text(text_lines(text@)),
{
    let lines = lines_of(text);
    let names = boss_names();
    let mut entries: Vec<String> = Vec::new();
    let mut i: usize = 0;
    assert(texts(lines@).take(0) == Seq::<Seq<char>>::empty());
    while i < lines.len()
        invariant
            i <= lines.len(),
            texts(lines@) == text_lines(text@),
            names@.len() == BOSS_COUNT,
            forall|k: int| 0 <= k < BOSS_COUNT ==> (#[trigger] names@[k])@ == boss_table()[k],
            forall|k: int| 0 <= k < i ==> readable_line(k, #[trigger] texts(lines@)[k]),
            texts(entries@) == boss_entries(texts(lines@).take(i as int)),
        decreases lines.len() - i,
    {
        proof {
            let next = texts(lines@).take(i + 1);
            assert(next.drop_last() == texts(lines@).take(i as int));
            assert(next.last() == lines@[i as int]@);
            assert(texts(lines@)[i as int] == lines@[i as int]@);
            lemma_split_len(lines@[i as int]@, ',');
        }
        if i >= BOSS_OFFSET {
            let chars = chars_of(lines[i].as_str());
            let fields = split_chars(&chars, ',');
            assert(texts(fields@)[0] == fields@[0]@);
            if !same_text(fields[0].as_str(), "-1") {
                if i - BOSS_OFFSET >= BOSS_COUNT || fields.len() < 2 {
                    assert(!readable_line(i as int, texts(lines@)[i as int]));
                    return None;
                }
                assert(texts(fields@)[1] == fields@[1]@);
                let ghost before = texts(entries@);
                entries.push(
                    boss_line(names[i - BOSS_OFFSET], fields[0].as_str(), fields[1].as_str()),
                );
                assert(texts(entries@) == before.push(entries@.last()@));
            }
        }
        i += 1;
    }
    assert(texts(lines@).take(lines.len() as int) == texts(lines@));
    let mut out = l("Boss");
    out.push(' ');
    out.append(join_strings(&entries, c1(" | ").as_str()).as_str());
    Some(out)
}

} // verus!
