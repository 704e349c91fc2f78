use arena_game::ui::update_score_text;
use arena_game::ui::Score;

#[test]
fn score_starts_at_zero() {
    let score = Score::default();
    assert_eq!(score.count(), 0);
}

#[test]
fn inc_adds_one() {
    let mut score = Score::default();
    score.inc();
    assert_eq!(score.count(), 1);
    score.inc();
    score.inc();
    assert_eq!(score.count(), 3);
}

#[test]
fn score_never_falls() {
    let mut score = Score::default();
    let mut last = score.count();
    for _ in 0..1_000 {
        score.inc();
        assert_eq!(score.count(), last + 1);
        last = score.count();
    }
}

#[test]
fn score_text_shows_the_count() {
    let mut score = Score::default();
    let mut text = String::from("stale");
    update_score_text(&mut text, &score);
    assert_eq!(text, "Score: 0");
    score.inc();
    score.inc();
    score.inc();
    update_score_text(&mut text, &score);
    assert_eq!(text, "Score: 3");
    for _ in 0..9 {
        score.inc();
    }
    update_score_text(&mut text, &score);
    assert_eq!(text, "Score: 12");
}

#[test]
fn score_text_of_a_long_count() {
    let mut score = Score::default();
    for _ in 0..1_234_567 {
        score.inc();
    }
    let mut text = String::new();
    update_score_text(&mut text, &score);
    assert_eq!(text, "Score: 1234567");
}
