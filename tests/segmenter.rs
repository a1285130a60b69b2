use voicereader::job::job_text_chunks;
use voicereader::text::{cap_chunks_by_chars, split_long_segment_by_words};

fn strings(v: &[&str]) -> Vec<String> {
    v.iter().map(|s| s.to_string()).collect()
}

const SCENARIO_TEXT: &str = "Hello world. This is a test of the reading pipeline, which should split into more than one chunk because it exceeds the first-chunk limit of two hundred characters once extended with enough padding words to push past that boundary reliably.";

#[test]
fn words_pack_into_lines_within_limit() {
    let r = split_long_segment_by_words("aaa bbb ccc", 7);
    assert_eq!(r, strings(&["aaa bbb", "ccc"]));
}

#[test]
fn long_word_is_cut_by_characters() {
    let r = split_long_segment_by_words("ab abcdefghij cd", 4);
    assert_eq!(r, strings(&["ab", "abcd", "efgh", "ij", "cd"]));
}

#[test]
fn word_split_collapses_white_space() {
    let r = split_long_segment_by_words("  one \t two\nthree  ", 100);
    assert_eq!(r, strings(&["one two three"]));
}

#[test]
fn word_split_of_blank_text_is_empty() {
    assert!(split_long_segment_by_words("   ", 10).is_empty());
}

#[test]
fn sentences_become_trimmed_chunks() {
    let split = strings(&["  Hello world.  ", "", "   ", "Second one."]);
    let r = cap_chunks_by_chars(split, "ignored", 200, 1);
    assert_eq!(r, strings(&["Hello world.", "Second one."]));
}

#[test]
fn no_sentences_means_whole_text() {
    let r = cap_chunks_by_chars(Vec::new(), "  Only text here.  ", 200, 1);
    assert_eq!(r, strings(&["Only text here."]));
}

#[test]
fn blank_sentences_fall_back_to_trimmed_text() {
    let r = cap_chunks_by_chars(strings(&["  ", "\n"]), "  Fallback.  ", 200, 1);
    assert_eq!(r, strings(&["Fallback."]));
}

#[test]
fn blank_text_gives_one_empty_chunk() {
    let r = cap_chunks_by_chars(Vec::new(), "   ", 200, 1);
    assert_eq!(r, strings(&[""]));
}

#[test]
fn sentences_group_up_to_the_sentence_limit() {
    let split = strings(&["A.", "B.", "C.", "D.", "E."]);
    let r = cap_chunks_by_chars(split, "", 200, 2);
    // The first chunk holds one sentence; later ones up to two.
    assert_eq!(r, strings(&["A.", "B. C.", "D. E."]));
}

#[test]
fn grouping_stops_at_the_character_limit() {
    let a = "a".repeat(60);
    let b = "b".repeat(60);
    let c = "c".repeat(60);
    let split = vec![a.clone(), b.clone(), c.clone()];
    let r = cap_chunks_by_chars(split, "", 100, 5);
    assert_eq!(r, vec![a, b, c]);
}

#[test]
fn long_sentence_is_split_by_words() {
    let sentence = "word ".repeat(60);
    let r = cap_chunks_by_chars(vec![sentence], "", 100, 1);
    assert!(r.len() >= 3);
    for c in &r {
        assert!(c.chars().count() <= 100);
        assert_eq!(c.trim(), c);
        assert!(!c.is_empty());
    }
    assert_eq!(r.join(" "), "word ".repeat(60).trim());
}

#[test]
fn first_chunk_obeys_the_first_limit() {
    let long = "x ".repeat(400);
    let r = cap_chunks_by_chars(vec![long.clone()], "", 1000, 1);
    assert_eq!(r.len(), 4);
    assert!(r.iter().all(|c| c.chars().count() <= 200));
    // Only the first chunk has the tighter limit; the next sentence gets the full budget.
    let r = cap_chunks_by_chars(vec!["Short.".to_string(), long.clone()], "", 1000, 1);
    assert_eq!(r.len(), 2);
    assert_eq!(r[1].chars().count(), 799);
    let r = cap_chunks_by_chars(vec!["Short.".to_string(), "Next.".to_string(), long], "", 1000, 1);
    assert_eq!(r.len(), 3);
    assert_eq!(r[2].chars().count(), 799);
}

#[test]
fn chunks_are_bounded_and_trimmed() {
    let split = strings(&[SCENARIO_TEXT, "  Another sentence that is short.  "]);
    let r = cap_chunks_by_chars(split, SCENARIO_TEXT, 120, 1);
    assert!(!r.is_empty());
    assert!(r[0].chars().count() <= 120);
    for c in &r {
        assert!(!c.is_empty());
        assert_eq!(c.trim(), c.as_str());
        assert!(c.chars().count() <= 120);
    }
}

#[test]
fn segmenting_twice_gives_the_same_chunks() {
    let split = strings(&["Hello world.", "This is a test of the reading pipeline."]);
    let a = cap_chunks_by_chars(split.clone(), "t", 150, 1);
    let b = cap_chunks_by_chars(split, "t", 150, 1);
    assert_eq!(a, b);
}

#[test]
fn scenario_text_splits_into_several_chunks() {
    let split = strings(&[
        "Hello world.",
        "This is a test of the reading pipeline, which should split into more than one chunk because it exceeds the first-chunk limit of two hundred characters once extended with enough padding words to push past that boundary reliably.",
    ]);
    let r = job_text_chunks(split, SCENARIO_TEXT, 200);
    assert!(r.len() >= 2);
    assert!(r[0].chars().count() <= 200);
    assert_eq!(r[0], "Hello world.");
}

#[test]
fn job_chunk_budget_is_clamped() {
    let sentence = "y ".repeat(100);
    let r = job_text_chunks(vec![sentence], "", 10);
    for c in &r {
        assert!(c.chars().count() <= 100);
    }
    assert_eq!(r[0].chars().count(), 99);
}

#[test]
fn second_sentence_gets_the_full_budget() {
    let second = "word ".repeat(300);
    let r = cap_chunks_by_chars(vec!["Hello world.".to_string(), second.clone()], "", 2000, 1);
    assert_eq!(r, vec!["Hello world.".to_string(), second.trim().to_string()]);
    assert_eq!(r[1].chars().count(), 1499);
}

#[test]
fn long_first_sentence_is_cut_under_the_first_limit() {
    let first = "word ".repeat(100);
    let r = cap_chunks_by_chars(vec![first, "End.".to_string()], "", 2000, 1);
    assert_eq!(r.len(), 4);
    assert!(r[..3].iter().all(|c| c.chars().count() <= 200));
    assert_eq!(r[3], "End.");
}

#[test]
fn blank_sentences_cut_long_text_by_words() {
    let text = "word ".repeat(1000);
    let r = cap_chunks_by_chars(strings(&["  ", ""]), &text, 2000, 1);
    // The whole text is the first segment, so it is cut under the first chunk's limit.
    assert_eq!(r.len(), 25);
    assert!(r.iter().all(|c| c.chars().count() <= 200));
    assert!(r.iter().all(|c| c.chars().count() <= 2000 && !c.is_empty()));
    assert_eq!(r.join(" "), text.trim());
}

#[test]
fn job_chunks_of_long_text_without_sentences() {
    let text = "abc ".repeat(800);
    let r = job_text_chunks(Vec::new(), &text, 5000);
    assert!(r.iter().all(|c| c.chars().count() <= 2000));
    assert!(r[0].chars().count() <= 200);
}
