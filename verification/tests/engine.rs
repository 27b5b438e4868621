use eca::game::{Game, GameError};

const GLYPHS: [char; 2] = ['X', '.'];

#[test]
fn new_is_all_dead() {
    let game = Game::new(30, 5, true, GLYPHS);
    assert_eq!(game.width(), 5);
    assert_eq!(game.render(), ".....");
}

#[test]
fn width_zero_is_degenerate_empty() {
    let mut game = Game::new(30, 0, true, GLYPHS);
    assert_eq!(game.width(), 0);
    assert_eq!(game.render(), "");
    game.step_and_update();
    assert_eq!(game.render(), "");
}

#[test]
fn set_state_empty_prefix_leaves_all_dead() {
    let mut game = Game::new(30, 5, true, GLYPHS);
    game.set_only(2).unwrap();
    game.set_state(&[]).unwrap();
    assert_eq!(game.render(), ".....");
}

#[test]
fn set_state_short_prefix_leaves_rest_dead() {
    let mut game = Game::new(30, 5, true, GLYPHS);
    game.set_state(&[true, true]).unwrap();
    assert_eq!(game.render(), "XX...");
}

#[test]
fn set_state_full_width() {
    let mut game = Game::new(30, 3, true, GLYPHS);
    game.set_state(&[false, true, false]).unwrap();
    assert_eq!(game.render(), ".X.");
}

#[test]
fn set_state_oversized_is_rejected() {
    let mut game = Game::new(30, 2, true, GLYPHS);
    game.set_state(&[true, true]).unwrap();
    let r = game.set_state(&[true, true, true]);
    assert_eq!(r, Err(GameError::StateTooLarge));
    // the generation is untouched by the rejected call
    assert_eq!(game.render(), "XX");
}

#[test]
fn set_only_yields_exactly_one_alive_cell() {
    let mut game = Game::new(30, 5, true, GLYPHS);
    game.set_only(2).unwrap();
    assert_eq!(game.render(), "..X..");
    game.set_only(0).unwrap();
    assert_eq!(game.render(), "X....");
    game.set_only(4).unwrap();
    assert_eq!(game.render(), "....X");
}

#[test]
fn set_only_at_width_is_rejected() {
    let mut game = Game::new(30, 5, true, GLYPHS);
    game.set_only(1).unwrap();
    let r = game.set_only(5);
    assert_eq!(r, Err(GameError::IndexOutOfRange));
    assert_eq!(game.render(), ".X...");
    assert_eq!(game.set_only(6), Err(GameError::IndexOutOfRange));
}

#[test]
fn scenario_wrap_rule_two_moves_left() {
    // rule 2, width 5, ring boundary: "X...." becomes "....X"
    let mut game = Game::new(2, 5, true, GLYPHS);
    game.set_state(&[true]).unwrap();
    assert_eq!(game.render(), "X....");
    game.step_and_update();
    assert_eq!(game.render(), "....X");
}

#[test]
fn scenario_no_wrap_rule_two_dies_out() {
    // rule 2, width 3, dead-edge boundary: "X.." becomes "..."
    let mut game = Game::new(2, 3, false, GLYPHS);
    game.set_state(&[true]).unwrap();
    assert_eq!(game.render(), "X..");
    game.step_and_update();
    assert_eq!(game.render(), "...");
}

#[test]
fn rule_zero_steps_to_all_dead() {
    let mut game = Game::new(0, 6, true, GLYPHS);
    game.set_state(&[true, false, true, true, false, true]).unwrap();
    game.step_and_update();
    assert_eq!(game.render(), "......");

    let mut edge = Game::new(0, 6, false, GLYPHS);
    edge.set_state(&[true, true, true, true, true, true]).unwrap();
    edge.step_and_update();
    assert_eq!(edge.render(), "......");
}

#[test]
fn rule_full_steps_to_all_alive() {
    let mut game = Game::new(255, 4, true, GLYPHS);
    game.step_and_update();
    assert_eq!(game.render(), "XXXX");

    let mut edge = Game::new(255, 4, false, GLYPHS);
    edge.set_state(&[true, false, false, true]).unwrap();
    edge.step_and_update();
    assert_eq!(edge.render(), "XXXX");
}

#[test]
fn step_is_deterministic() {
    let pattern = [true, false, false, true, true, false, true];
    let mut a = Game::new(110, 7, true, GLYPHS);
    let mut b = Game::new(110, 7, true, GLYPHS);
    a.set_state(&pattern).unwrap();
    b.set_state(&pattern).unwrap();
    // two equal engines step to equal generations
    assert_eq!(a.step(), b.step());
    // a step of the same engine twice in a row reads the same snapshot
    assert_eq!(a.step(), a.step());
    a.step_and_update();
    b.step_and_update();
    assert_eq!(a.render(), b.render());
}

#[test]
fn wrap_step_commutes_with_rotation() {
    let n = 7;
    let k = 2;
    let pattern = [true, false, false, true, true, false, false];
    let mut rotated = Vec::new();
    for i in 0..n {
        rotated.push(pattern[(i + k) % n]);
    }
    let mut game = Game::new(30, n, true, GLYPHS);
    let mut shifted = Game::new(30, n, true, GLYPHS);
    game.set_state(&pattern).unwrap();
    shifted.set_state(&rotated).unwrap();
    let stepped = game.step();
    let stepped_shifted = shifted.step();
    for i in 0..n {
        assert_eq!(stepped_shifted[i], stepped[(i + k) % n]);
    }
}

#[test]
fn render_uses_configured_glyphs() {
    let mut game = Game::new(30, 4, true, ['█', ' ']);
    game.set_state(&[true, false, true, false]).unwrap();
    assert_eq!(game.render(), "█ █ ");
}

#[test]
fn randomize_keeps_width_and_config() {
    let mut game = Game::new(30, 40, true, GLYPHS);
    game.randomize();
    assert_eq!(game.width(), 40);
    let line = game.render();
    assert_eq!(line.chars().count(), 40);
    for ch in line.chars() {
        assert!(ch == 'X' || ch == '.');
    }
}

#[test]
fn run_steps_prints_initial_state_first() {
    // batch mode with count 3: exactly 3 lines, the first before any step
    let mut game = Game::new(2, 5, true, GLYPHS);
    game.set_state(&[true]).unwrap();
    let lines = game.run_steps(3);
    assert_eq!(lines, vec!["X....", "....X", "...X."]);
    // the engine is left exactly 3 generations ahead
    assert_eq!(game.render(), "..X..");
}

#[test]
fn run_steps_zero_prints_nothing_and_keeps_state() {
    let mut game = Game::new(2, 5, true, GLYPHS);
    game.set_state(&[true]).unwrap();
    let lines = game.run_steps(0);
    assert!(lines.is_empty());
    assert_eq!(game.render(), "X....");
}

#[test]
fn run_steps_advances_one_per_line() {
    // the interactive protocol: one empty line advances one generation,
    // a line "3" advances exactly three
    let mut one_at_a_time = Game::new(2, 5, true, GLYPHS);
    one_at_a_time.set_state(&[true]).unwrap();
    let mut batched = Game::new(2, 5, true, GLYPHS);
    batched.set_state(&[true]).unwrap();

    let mut singles = Vec::new();
    for _ in 0..3 {
        singles.extend(one_at_a_time.run_steps(1));
    }
    let batch = batched.run_steps(3);
    assert_eq!(batch.len(), 3);
    assert_eq!(singles, batch);
    assert_eq!(one_at_a_time.render(), batched.render());
}
