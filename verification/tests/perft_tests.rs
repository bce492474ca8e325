use xadreis::fen::fen_to_game_state;
use xadreis::perft::perft;
use xadreis::state::GameState;

const START_FEN: &str = "rnbqkbnr/pppppppp/8/8/8/8/PPPPPPPP/RNBQKBNR w KQkq - 0 1";

fn start() -> Box<GameState> {
    Box::new(fen_to_game_state(START_FEN).unwrap())
}

#[test]
fn perft_depth_one_from_start_is_twenty() {
    let mut results = [-1isize; 8];
    let gs = start();
    assert_eq!(perft(&mut results, &gs, 1), 20);
    assert_eq!(results[1], 20);
    assert_eq!(results[0], -1);
    assert_eq!(results[2], -1);
}

#[test]
fn perft_depth_two_from_start_is_four_hundred() {
    let mut results = [-1isize; 8];
    let gs = start();
    assert_eq!(perft(&mut results, &gs, 2), 400);
    assert_eq!(results[1], 20);
    assert_eq!(results[2], 400);
    assert_eq!(results[3], -1);
}

#[test]
fn perft_depth_three_from_start_is_8902() {
    let mut results = [-1isize; 8];
    let gs = start();
    assert_eq!(perft(&mut results, &gs, 3), 8902);
    assert_eq!(results[1], 20);
    assert_eq!(results[2], 400);
    assert_eq!(results[3], 8902);
    assert_eq!(results[4], -1);
    assert_eq!(results[7], -1);
}

#[test]
fn perft_depth_zero_counts_the_position_itself() {
    let mut results = [-1isize; 8];
    let gs = start();
    assert_eq!(perft(&mut results, &gs, 0), 1);
    assert_eq!(results, [-1isize; 8]);
}

#[test]
fn perft_accumulates_into_a_reused_buffer() {
    let mut results = [-1isize; 8];
    let gs = start();
    perft(&mut results, &gs, 1);
    perft(&mut results, &gs, 1);
    assert_eq!(results[1], 40);
}
