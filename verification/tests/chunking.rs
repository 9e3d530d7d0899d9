use plugin_host::chunking::{chunk_line, split_words, CHUNK_LIMIT};

fn word(c: char, n: usize) -> String {
    std::iter::repeat(c).take(n).collect()
}

#[test]
fn words_are_runs_of_non_whitespace() {
    assert_eq!(split_words("  one two\tthree\u{a0}four  "), vec!["one", "two", "three", "four"]);
    assert_eq!(split_words(""), Vec::<String>::new());
    assert_eq!(split_words(" \n\t "), Vec::<String>::new());
    assert_eq!(split_words("single"), vec!["single"]);
}

#[test]
fn short_line_is_one_chunk() {
    assert_eq!(chunk_line("hello world"), vec!["hello world"]);
}

#[test]
fn whitespace_runs_collapse_to_single_spaces() {
    assert_eq!(chunk_line("  a   b \t c  "), vec!["a b c"]);
}

#[test]
fn empty_and_blank_lines_give_no_chunk() {
    assert_eq!(chunk_line(""), Vec::<String>::new());
    assert_eq!(chunk_line("   "), Vec::<String>::new());
}

#[test]
fn chunk_of_exactly_the_limit_is_kept_whole() {
    let line = format!("{} {}", word('a', 200), word('b', 199));
    assert_eq!(line.chars().count(), CHUNK_LIMIT);
    assert_eq!(chunk_line(&line), vec![line.clone()]);
}

#[test]
fn one_character_over_the_limit_is_cut_between_words() {
    let a = word('a', 200);
    let b = word('b', 200);
    let line = format!("{} {}", a, b);
    assert_eq!(line.chars().count(), CHUNK_LIMIT + 1);
    assert_eq!(chunk_line(&line), vec![a, b]);
}

#[test]
fn long_word_is_sent_whole() {
    let long = word('x', 450);
    let line = format!("ab {} cd", long);
    assert_eq!(chunk_line(&line), vec!["ab".to_string(), long, "cd".to_string()]);
}

#[test]
fn packing_is_greedy() {
    let words: Vec<String> = (0..250).map(|i| format!("w{:03}", i)).collect();
    let line = words.join(" ");
    let chunks = chunk_line(&line);
    // Each word has 4 characters, so 80 words and 79 spaces make 399.
    assert_eq!(chunks.len(), 4);
    assert_eq!(chunks[0], words[0..80].join(" "));
    assert_eq!(chunks[1], words[80..160].join(" "));
    assert_eq!(chunks[2], words[160..240].join(" "));
    assert_eq!(chunks[3], words[240..250].join(" "));
}

#[test]
fn chunks_rejoined_give_the_words_back() {
    let words: Vec<String> = (0..300).map(|i| word('k', 1 + i % 17)).collect();
    let line = words.join("  ");
    let chunks = chunk_line(&line);
    for c in &chunks {
        assert!(c.chars().count() <= CHUNK_LIMIT);
    }
    let rejoined = chunks.join(" ");
    assert_eq!(split_words(&rejoined), words);
}

#[test]
fn limit_counts_characters_not_bytes() {
    let a = word('é', 200);
    let b = word('ü', 199);
    let line = format!("{} {}", a, b);
    assert_eq!(chunk_line(&line), vec![line.clone()]);
}
