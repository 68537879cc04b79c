use arena_shooter::{increment_score, score_text, Score};

#[test]
fn score_counts_kills() {
    let mut s = Score::default();
    increment_score(&mut s, 3);
    assert_eq!(s.0, 3);
    increment_score(&mut s, 0);
    assert_eq!(s.0, 3);
    increment_score(&mut s, 1);
    assert_eq!(s.0, 4);
}

#[test]
fn score_starts_at_zero() {
    assert_eq!(Score::default().0, 0);
}

#[test]
fn score_text_shows_the_score() {
    assert_eq!(score_text(&Score(0)), "Score: 0");
    assert_eq!(score_text(&Score(7)), "Score: 7");
    assert_eq!(score_text(&Score(12)), "Score: 12");
    assert_eq!(score_text(&Score(100)), "Score: 100");
    assert_eq!(score_text(&Score(u32::MAX)), "Score: 4294967295");
}

#[test]
fn score_text_matches_std_formatting() {
    for n in [1u32, 9, 10, 99, 1000, 65535, 123456789] {
        assert_eq!(score_text(&Score(n)), format!("Score: {}", n));
    }
}

#[test]
fn score_reaches_the_top_exactly() {
    let mut s = Score(u32::MAX - 2);
    increment_score(&mut s, 2);
    assert_eq!(s.0, u32::MAX);
}
