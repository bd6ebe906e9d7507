use whackamole::digits::u128_to_dec;
use whackamole::game::{setup_game, Game, GameState};
use whackamole::hole_index_of_key;
use whackamole::view::Dimension;

fn row_text(g: &Game, row: usize, left: usize, len: usize) -> String {
    g.view.views[row][left..left + len].iter().collect()
}

#[test]
fn new_game_starts_stopped_with_sixty_seconds() {
    let g = Game::new(&Dimension { width: 70, height: 25 });
    assert!(matches!(g.state, GameState::Stopped));
    assert_eq!(g.scores, 0);
    assert_eq!(g.time, 60);
    assert!(g.view.views.iter().all(|row| row.iter().all(|&c| c == ' ')));
    assert!(g.view.points.iter().all(|row| row.iter().all(|&m| m == 0)));
    assert!(g.view.hole_points.is_empty());
    assert!(g.view.hole_marmots.is_empty());
}

#[test]
fn setup_lays_out_nine_holes() {
    let g = setup_game();
    assert!(matches!(g.state, GameState::Playing));
    assert_eq!(g.scores, 0);
    assert_eq!(g.time, 60);
    assert_eq!(g.view.hole_points.len(), 9);
    assert_eq!(g.view.hole_marmots.len(), 9);
    for k in 0..9 {
        assert_eq!(g.view.hole_points[k].x, 7 + 12 * (k % 3));
        assert_eq!(g.view.hole_points[k].y, 5 + 6 * (k / 3));
        assert!(!g.view.hole_marmots[k].appeared);
        assert_eq!(g.view.hole_marmots[k].view, "🐭");
    }
    // the outer border and the divider merge into junctions
    assert_eq!(g.view.points[0][0], 6);
    assert_eq!(g.view.views[0][0], '╔');
    assert_eq!(g.view.points[0][40], 12 | 10);
    assert_eq!(g.view.views[0][40], '╦');
    assert_eq!(g.view.views[24][69], '╝');
}

#[test]
fn init_overlays_shows_score_time_and_prompt() {
    let mut g = setup_game();
    g.init_overlays();
    assert_eq!(row_text(&g, 9, 50, 9), "Scores: 0");
    assert_eq!(row_text(&g, 11, 50, 8), "Time: 60");
    assert_eq!(row_text(&g, 13, 50, 16), "q: quit the game");
}

#[test]
fn digit_keys_map_to_hole_indices() {
    assert_eq!(hole_index_of_key('1'), Some(0));
    assert_eq!(hole_index_of_key('4'), Some(3));
    assert_eq!(hole_index_of_key('9'), Some(8));
    assert_eq!(hole_index_of_key('0'), None);
    assert_eq!(hole_index_of_key('q'), None);
    assert_eq!(hole_index_of_key(' '), None);
}

#[test]
fn strike_scores_once_per_reveal() {
    let mut g = setup_game();
    g.spawn_apply(&vec![3]);
    assert!(g.view.hole_marmots[3].appeared);
    assert_eq!(g.view.views[11][7], '🐭');
    // key '4' maps to hole 3
    let idx = hole_index_of_key('4').unwrap();
    assert!(g.strike(idx));
    assert_eq!(g.scores, 10);
    assert!(!g.view.hole_marmots[3].appeared);
    assert_eq!(g.view.views[11][7], '❌');
    // a second strike before the next spawn finds nothing
    assert!(!g.strike(idx));
    assert_eq!(g.scores, 10);
    assert_eq!(g.view.views[11][7], '❌');
}

#[test]
fn strike_without_target_changes_nothing() {
    let mut g = setup_game();
    let before = g.view.views.clone();
    assert!(!g.strike(5));
    assert_eq!(g.scores, 0);
    assert_eq!(g.view.views, before);
    assert!(matches!(g.state, GameState::Playing));
}

#[test]
fn spawn_apply_reveals_picked_holes_only() {
    let mut g = setup_game();
    g.spawn_apply(&vec![2, 2, 5]);
    for k in 0..9 {
        let x = g.view.hole_points[k].x;
        let y = g.view.hole_points[k].y;
        if k == 2 || k == 5 {
            assert!(g.view.hole_marmots[k].appeared);
            assert_eq!(g.view.views[y][x], '🐭');
        } else {
            assert!(!g.view.hole_marmots[k].appeared);
            assert_eq!(g.view.views[y][x], ' ');
        }
    }
    assert_eq!(row_text(&g, 9, 50, 9), "Scores: 0");
}

#[test]
fn spawn_clears_previous_reveals() {
    let mut g = setup_game();
    g.spawn_apply(&vec![1]);
    assert!(g.view.hole_marmots[1].appeared);
    g.spawn_apply(&vec![7]);
    assert!(!g.view.hole_marmots[1].appeared);
    assert!(g.view.hole_marmots[7].appeared);
}

#[test]
fn spawn_tick_reveals_one_to_six_holes() {
    for _ in 0..20 {
        let mut g = setup_game();
        assert!(g.spawn_tick());
        let shown = g.view.hole_marmots.iter().filter(|m| m.appeared).count();
        assert!((1..=6).contains(&shown));
        for k in 0..9 {
            let x = g.view.hole_points[k].x;
            let y = g.view.hole_points[k].y;
            let want = if g.view.hole_marmots[k].appeared { '🐭' } else { ' ' };
            assert_eq!(g.view.views[y][x], want);
        }
    }
}

#[test]
fn timer_counts_down_then_stops() {
    let mut g = setup_game();
    g.time = 1;
    assert!(g.timer_tick());
    assert_eq!(g.time, 0);
    assert!(matches!(g.state, GameState::Playing));
    assert_eq!(row_text(&g, 11, 50, 7), "Time: 0");
    // the tick at zero stops the game and shows the end message
    assert!(g.timer_tick());
    assert_eq!(g.time, 0);
    assert!(matches!(g.state, GameState::Stopped));
    assert_eq!(row_text(&g, 5, 50, 13), "Game is Over!");
    // once stopped, further ticks do nothing and the task would end
    let before = g.view.views.clone();
    assert!(!g.timer_tick());
    assert_eq!(g.time, 0);
    assert_eq!(g.view.views, before);
    // the spawn scheduler observes the stop and takes no action
    let appeared_before: Vec<bool> =
        g.view.hole_marmots.iter().map(|m| m.appeared).collect();
    assert!(!g.spawn_tick());
    let appeared_after: Vec<bool> =
        g.view.hole_marmots.iter().map(|m| m.appeared).collect();
    assert_eq!(appeared_before, appeared_after);
    assert_eq!(g.view.views, before);
}

#[test]
fn timer_refreshes_overlay_each_tick() {
    let mut g = setup_game();
    g.init_overlays();
    assert!(g.timer_tick());
    assert_eq!(g.time, 59);
    assert_eq!(row_text(&g, 11, 50, 8), "Time: 59");
}

#[test]
fn win_banner_fires_exactly_once() {
    let mut g = setup_game();
    let mut banner_shown = false;
    // the score crosses the threshold: the banner fires once
    g.scores = 1030;
    let fired = g.check_win(banner_shown);
    banner_shown = banner_shown || fired;
    assert!(fired);
    assert!(matches!(g.state, GameState::Stopped));
    // crossing again and again never re-fires it
    for _ in 0..3 {
        g.scores += 10;
        let again = g.check_win(banner_shown);
        assert!(!again);
        banner_shown = banner_shown || again;
    }
}

#[test]
fn win_needs_strictly_more_than_threshold() {
    let mut g = setup_game();
    g.scores = 1024;
    assert!(!g.check_win(false));
    assert!(matches!(g.state, GameState::Playing));
    g.scores = 1025;
    assert!(g.check_win(false));
    assert!(matches!(g.state, GameState::Stopped));
}

#[test]
fn decimal_rendering_is_exact() {
    assert_eq!(u128_to_dec(0), vec!['0']);
    assert_eq!(u128_to_dec(7), vec!['7']);
    assert_eq!(u128_to_dec(60), vec!['6', '0']);
    assert_eq!(u128_to_dec(1024), vec!['1', '0', '2', '4']);
    assert_eq!(
        u128_to_dec(999999999999),
        "999999999999".chars().collect::<Vec<char>>()
    );
}
