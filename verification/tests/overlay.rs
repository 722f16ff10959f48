use rphys::overlay::{
    active_row_label, clip_rect, elimination_banner_text, leaderboard_layout, more_racers_text, winner_title,
};

#[test]
fn clipping_keeps_the_inside_part() {
    assert_eq!(clip_rect(10, 10, 20, 20, 50, 50), Some((10, 10, 30, 30)));
    assert_eq!(clip_rect(15, 15, 100, 100, 20, 20), Some((15, 15, 20, 20)));
    assert_eq!(clip_rect(-5, -5, 10, 10, 20, 20), Some((0, 0, 5, 5)));
    assert_eq!(clip_rect(25, 0, 10, 10, 20, 20), None);
    assert_eq!(clip_rect(0, 0, 0, 10, 20, 20), None);
}

#[test]
fn leaderboard_shows_at_most_eight_rows() {
    assert_eq!(leaderboard_layout(2, 3), (2, 3, 0));
    assert_eq!(leaderboard_layout(3, 7), (3, 5, 2));
    assert_eq!(leaderboard_layout(10, 1), (8, 0, 3));
    assert_eq!(more_racers_text(3), "+ 3 more");
}

#[test]
fn overlay_texts() {
    assert_eq!(active_row_label(2, "Blue"), "2. Blue");
    assert_eq!(winner_title("Red"), "Red wins!");
    assert_eq!(elimination_banner_text("Green"), "❌ Green ELIMINATED!");
}
