use winuxsh::games::dino::{self, Kind, Obstacle, Rolls};
use winuxsh::games::snake::{self, random_pos_with, Dir, Pos};
use winuxsh::games::{rand_n, KeyOutcome};
use winuxsh::menu::{KeyCodeInput, KeyInput};

fn press(code: KeyCodeInput) -> KeyInput {
    KeyInput { code, ctrl: false, release: false }
}

const CALM: Rolls = Rolls { kind: 9, high: 0, width: 0, gap: 0 };

#[test]
fn dino_jump_follows_its_arc_and_lands() {
    let mut g = dino::Game::new_with(0, 5);
    assert_eq!(g.next_spawn, 63);
    g.jump();
    assert_eq!(g.vy, 3);
    let mut heights = Vec::new();
    for _ in 0..7 {
        g.tick_with(CALM);
        heights.push(g.jump_y);
    }
    assert_eq!(heights, vec![3, 5, 6, 6, 5, 3, 0]);
    assert_eq!(g.vy, 0);
    assert_eq!(g.travel, 7);
    assert_eq!(g.score, 3);
}

#[test]
fn dino_crashes_into_a_cactus() {
    let mut g = dino::Game::new_with(2, 0);
    g.next_spawn = 1000;
    g.travel = 20;
    g.obstacles.push(Obstacle { kind: Kind::Cactus { w: 1 }, x: 9, y: 10 });
    g.tick_with(CALM);
    assert_eq!(g.phase, dino::Phase::Over);
    assert_eq!(g.score, 10);
    assert_eq!(g.best, 10);
    let travel = g.travel;
    g.tick_with(CALM);
    assert_eq!(g.travel, travel);
}

#[test]
fn dino_spawns_at_the_right_edge() {
    let mut g = dino::Game::new_with(0, 0);
    g.travel = 57;
    g.tick_with(Rolls { kind: 9, high: 0, width: 2, gap: 4 });
    assert_eq!(g.obstacles, vec![Obstacle { kind: Kind::Cactus { w: 3 }, x: 60, y: 10 }]);
    assert_eq!(g.next_spawn, 58 + 29 + 6 + 4);
}

#[test]
fn dino_boxes_and_speed() {
    let g = dino::Game::new_with(0, 0);
    assert_eq!(dino::dino_box(&g), (8, 9, 3, 4));
    assert_eq!(dino::obstacle_box(&Obstacle { kind: Kind::Bird, x: 4, y: 7 }), (4, 7, 3, 1));
    assert!(dino::overlaps((0, 0, 2, 2), (1, 1, 2, 2)));
    assert!(!dino::overlaps((0, 0, 2, 2), (2, 0, 2, 2)));
    let mut g = dino::Game::new_with(0, 0);
    assert_eq!(g.tick_ms(), 110);
    g.score = 500;
    assert_eq!(g.tick_ms(), 60);
    g.score = 1000;
    assert_eq!(g.tick_ms(), 55);
}

#[test]
fn dino_keys() {
    let mut g = dino::Game::new_with(0, 0);
    assert_eq!(g.handle_key(press(KeyCodeInput::Down)), KeyOutcome::Continue);
    assert!(g.ducking);
    assert_eq!(dino::dino_box(&g), (8, 11, 5, 2));
    assert_eq!(g.handle_key(press(KeyCodeInput::Char(' '))), KeyOutcome::Continue);
    assert_eq!(g.vy, 3);
    assert!(!g.ducking);
    assert_eq!(g.handle_key(press(KeyCodeInput::Char('q'))), KeyOutcome::Quit);
    g.phase = dino::Phase::Over;
    assert_eq!(g.handle_key(press(KeyCodeInput::Char('r'))), KeyOutcome::Restart);
}

#[test]
fn snake_moves_eats_and_wraps() {
    let mut g = snake::Game::new_with(0, 0);
    assert_eq!(g.food, Pos { x: 0, y: 0 });
    g.tick_with(0);
    assert_eq!(g.snake, vec![Pos { x: 12, y: 7 }, Pos { x: 11, y: 7 }, Pos { x: 10, y: 7 }]);
    g.food = Pos { x: 13, y: 7 };
    g.tick_with(0);
    assert_eq!(g.score, 1);
    assert_eq!(g.snake.len(), 4);
    assert_eq!(g.food, Pos { x: 0, y: 0 });

    let mut g = snake::Game::new_with(0, 0);
    g.snake = vec![Pos { x: 21, y: 0 }];
    g.food = Pos { x: 5, y: 5 };
    g.tick_with(0);
    assert_eq!(g.snake, vec![Pos { x: 0, y: 0 }]);
    g.steer(Dir::Up);
    g.tick_with(0);
    assert_eq!(g.snake, vec![Pos { x: 0, y: 13 }]);
}

#[test]
fn snake_crashes_into_itself_and_refuses_reversal() {
    let mut g = snake::Game::new_with(4, 0);
    g.steer(Dir::Left);
    assert_eq!(g.dir, Dir::Right);
    g.snake = vec![Pos { x: 5, y: 5 }, Pos { x: 5, y: 6 }, Pos { x: 6, y: 6 }, Pos { x: 6, y: 5 }];
    g.score = 7;
    g.dir = Dir::Right;
    g.tick_with(0);
    assert_eq!(g.phase, snake::Phase::Over);
    assert_eq!(g.best, 7);
}

#[test]
fn snake_food_and_keys() {
    assert_eq!(random_pos_with(&[], 5), Pos { x: 5, y: 0 });
    assert_eq!(random_pos_with(&[Pos { x: 0, y: 0 }], 0), Pos { x: 1, y: 0 });
    let mut g = snake::Game::new_with(0, 0);
    assert_eq!(g.handle_key(press(KeyCodeInput::Char('p'))), KeyOutcome::Continue);
    assert_eq!(g.phase, snake::Phase::Paused);
    let before = g.snake.clone();
    g.tick_with(0);
    assert_eq!(g.snake, before);
    g.handle_key(press(KeyCodeInput::Char('p')));
    g.handle_key(press(KeyCodeInput::Char('s')));
    assert_eq!(g.dir, Dir::Down);
    assert_eq!(g.tick_ms(), 150);
    assert!(rand_n(3) < 3);
    assert_eq!(rand_n(0), 0);
}

#[test]
fn snake_full_score_ticks_on_while_not_eating() {
    let mut g = snake::Game::new_with(0, 0);
    g.food = Pos { x: 0, y: 0 };
    g.score = u32::MAX;
    assert!(!g.will_eat());
    g.tick_with(0);
    assert_eq!(g.snake, vec![Pos { x: 12, y: 7 }, Pos { x: 11, y: 7 }, Pos { x: 10, y: 7 }]);
    assert_eq!(g.score, u32::MAX);
    g.food = Pos { x: 13, y: 7 };
    assert!(g.will_eat());
}
