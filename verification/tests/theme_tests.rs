use std::collections::HashSet;

use git_master::theme::{graph_color, sync_color, ACCENT, GREEN, RED, TEXT_SUBTLE, YELLOW};

#[test]
fn sync_states_have_distinct_colors() {
    let colors = [None, Some((0, 0)), Some((1, 0)), Some((0, 1)), Some((1, 1))].map(sync_color);
    assert_eq!(colors.into_iter().collect::<HashSet<_>>().len(), 5);
}

#[test]
fn sync_colors_follow_ahead_and_behind_counts() {
    assert_eq!(sync_color(None), TEXT_SUBTLE);
    assert_eq!(sync_color(Some((0, 0))), GREEN);
    assert_eq!(sync_color(Some((3, 0))), ACCENT);
    assert_eq!(sync_color(Some((0, 2))), YELLOW);
    assert_eq!(sync_color(Some((4, 5))), RED);
}

#[test]
fn graph_colors_cycle_every_four_columns() {
    assert_eq!(graph_color(0), ACCENT);
    assert_eq!(graph_color(1), GREEN);
    assert_eq!(graph_color(2), YELLOW);
    assert_eq!(graph_color(3), RED);
    assert_eq!(graph_color(4), ACCENT);
    assert_eq!(graph_color(9), GREEN);
}
