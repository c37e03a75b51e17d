use snake_game::{Block, Direction, Snake, SnakeTickOutcomes};

/// A cell that no snake of these tests comes near.
const FAR: Block = Block(4, 0);

/// Steps once in direction `d`, with the food on `food`.
fn go(snake: &mut Snake, d: Direction, food: Block) -> SnakeTickOutcomes {
    snake.buffer_direction(d);
    snake.tick(&food)
}

fn head(snake: &Snake) -> Block {
    *snake.to_blocks().last().unwrap()
}

/// A snake on a grid of 5 by 5 cells that went right four times and ate each
/// time: head on (2, 1), then (2, 0), (2, 4), (2, 3) and (2, 2).
fn long_snake() -> Snake {
    let mut snake = Snake::new(5, 5);
    for col in [3u8, 4, 0, 1] {
        assert_eq!(
            go(&mut snake, Direction::Right, Block(2, col)),
            SnakeTickOutcomes::GenerateNewFood
        );
    }
    snake
}

#[test]
fn new_snake_is_one_cell_at_the_centre() {
    let snake = Snake::new(5, 5);
    assert_eq!(snake.to_blocks(), vec![Block(2, 2)]);
    assert_eq!(snake.length(), 1);
}

#[test]
fn centre_uses_integer_division() {
    assert_eq!(Snake::new(4, 7).to_blocks(), vec![Block(2, 3)]);
    assert_eq!(Snake::new(1, 1).to_blocks(), vec![Block(0, 0)]);
    assert_eq!(Snake::new(1, 2).to_blocks(), vec![Block(0, 1)]);
    assert_eq!(Snake::new(255, 255).to_blocks(), vec![Block(127, 127)]);
}

#[test]
fn snake_without_direction_stands_still() {
    let mut snake = Snake::new(5, 5);
    for _ in 0..3 {
        assert_eq!(snake.tick(&FAR), SnakeTickOutcomes::Nothing);
        assert_eq!(snake.to_blocks(), vec![Block(2, 2)]);
        assert_eq!(snake.length(), 1);
    }
}

#[test]
fn snake_without_direction_does_not_collide_but_eats_where_it_stands() {
    let mut snake = Snake::new(5, 5);
    assert_eq!(snake.tick(&Block(2, 2)), SnakeTickOutcomes::GenerateNewFood);
    assert_eq!(snake.length(), 2);
    assert_eq!(snake.to_blocks(), vec![Block(2, 2), Block(2, 2)]);
}

#[test]
fn each_direction_moves_the_head_by_one_cell() {
    let mut snake = Snake::new(5, 5);
    assert_eq!(go(&mut snake, Direction::Up, FAR), SnakeTickOutcomes::Nothing);
    assert_eq!(head(&snake), Block(1, 2));
    assert_eq!(go(&mut snake, Direction::Right, FAR), SnakeTickOutcomes::Nothing);
    assert_eq!(head(&snake), Block(1, 3));
    assert_eq!(go(&mut snake, Direction::Down, FAR), SnakeTickOutcomes::Nothing);
    assert_eq!(head(&snake), Block(2, 3));
    assert_eq!(go(&mut snake, Direction::Left, FAR), SnakeTickOutcomes::Nothing);
    assert_eq!(head(&snake), Block(2, 2));
    assert_eq!(snake.length(), 1);
    assert_eq!(snake.to_blocks().len(), 1);
}

#[test]
fn snake_keeps_its_direction_without_a_new_request() {
    let mut snake = Snake::new(5, 5);
    go(&mut snake, Direction::Down, FAR);
    assert_eq!(snake.tick(&FAR), SnakeTickOutcomes::Nothing);
    assert_eq!(head(&snake), Block(4, 2));
}

#[test]
fn moving_up_from_the_top_row_arrives_in_the_bottom_row() {
    let mut snake = Snake::new(5, 5);
    go(&mut snake, Direction::Up, FAR);
    go(&mut snake, Direction::Up, FAR);
    assert_eq!(head(&snake), Block(0, 2));
    assert_eq!(go(&mut snake, Direction::Up, FAR), SnakeTickOutcomes::Nothing);
    assert_eq!(head(&snake), Block(4, 2));
}

#[test]
fn moving_down_from_the_bottom_row_arrives_in_the_top_row() {
    let mut snake = Snake::new(5, 5);
    go(&mut snake, Direction::Down, FAR);
    go(&mut snake, Direction::Down, FAR);
    assert_eq!(head(&snake), Block(4, 2));
    go(&mut snake, Direction::Down, FAR);
    assert_eq!(head(&snake), Block(0, 2));
}

#[test]
fn moving_left_from_the_first_column_arrives_in_the_last_column() {
    let mut snake = Snake::new(5, 5);
    go(&mut snake, Direction::Left, FAR);
    go(&mut snake, Direction::Left, FAR);
    assert_eq!(head(&snake), Block(2, 0));
    go(&mut snake, Direction::Left, FAR);
    assert_eq!(head(&snake), Block(2, 4));
}

#[test]
fn moving_right_from_the_last_column_arrives_in_the_first_column() {
    let mut snake = Snake::new(5, 5);
    go(&mut snake, Direction::Right, FAR);
    go(&mut snake, Direction::Right, FAR);
    assert_eq!(head(&snake), Block(2, 4));
    go(&mut snake, Direction::Right, FAR);
    assert_eq!(head(&snake), Block(2, 0));
}

#[test]
fn steps_on_the_largest_grid_do_not_overflow() {
    let food = Block(9, 9);
    let mut snake = Snake::new(255, 255);
    go(&mut snake, Direction::Up, food);
    assert_eq!(head(&snake), Block(126, 127));
    go(&mut snake, Direction::Left, food);
    assert_eq!(head(&snake), Block(126, 126));
    for _ in 0..127 {
        go(&mut snake, Direction::Up, food);
    }
    assert_eq!(head(&snake), Block(254, 126));
    go(&mut snake, Direction::Right, food);
    assert_eq!(head(&snake), Block(254, 127));
    go(&mut snake, Direction::Down, food);
    assert_eq!(head(&snake), Block(0, 127));
    for _ in 0..128 {
        go(&mut snake, Direction::Right, food);
    }
    assert_eq!(head(&snake), Block(0, 0));
}

#[test]
fn step_back_on_a_grid_of_two_hundred_rows() {
    let mut snake = Snake::new(200, 200);
    go(&mut snake, Direction::Up, Block(0, 0));
    assert_eq!(head(&snake), Block(99, 100));
    go(&mut snake, Direction::Left, Block(0, 0));
    assert_eq!(head(&snake), Block(99, 99));
}

#[test]
fn before_the_first_step_every_direction_is_accepted() {
    for (d, cell) in [
        (Direction::Up, Block(1, 2)),
        (Direction::Down, Block(3, 2)),
        (Direction::Left, Block(2, 1)),
        (Direction::Right, Block(2, 3)),
    ] {
        let mut snake = Snake::new(5, 5);
        go(&mut snake, d, FAR);
        assert_eq!(head(&snake), cell);
    }
}

#[test]
fn request_for_the_opposite_direction_is_ignored() {
    let mut snake = Snake::new(5, 5);
    go(&mut snake, Direction::Right, FAR);
    assert_eq!(head(&snake), Block(2, 3));
    assert_eq!(go(&mut snake, Direction::Left, FAR), SnakeTickOutcomes::Nothing);
    assert_eq!(head(&snake), Block(2, 4));
}

#[test]
fn opposite_request_is_ignored_in_every_direction() {
    for (d, first, second) in [
        (Direction::Up, Block(1, 2), Block(0, 2)),
        (Direction::Down, Block(3, 2), Block(4, 2)),
        (Direction::Left, Block(2, 1), Block(2, 0)),
        (Direction::Right, Block(2, 3), Block(2, 4)),
    ] {
        let mut snake = Snake::new(5, 5);
        go(&mut snake, d, FAR);
        assert_eq!(head(&snake), first);
        go(&mut snake, d.get_opposite(), FAR);
        assert_eq!(head(&snake), second);
    }
}

#[test]
fn ignored_request_leaves_a_pending_request_in_place() {
    let mut snake = Snake::new(5, 5);
    go(&mut snake, Direction::Right, FAR);
    snake.buffer_direction(Direction::Up);
    snake.buffer_direction(Direction::Left);
    snake.tick(&FAR);
    assert_eq!(head(&snake), Block(1, 3));
}

#[test]
fn later_request_replaces_an_earlier_one() {
    let mut snake = Snake::new(5, 5);
    go(&mut snake, Direction::Right, FAR);
    snake.buffer_direction(Direction::Up);
    snake.buffer_direction(Direction::Down);
    snake.tick(&FAR);
    assert_eq!(head(&snake), Block(3, 3));
}

#[test]
fn request_is_measured_against_the_last_step_not_the_pending_one() {
    let mut snake = Snake::new(5, 5);
    go(&mut snake, Direction::Right, FAR);
    snake.buffer_direction(Direction::Up);
    // Down reverses the pending Up, but not the last step to the right
    snake.buffer_direction(Direction::Down);
    snake.tick(&FAR);
    assert_eq!(head(&snake), Block(3, 3));
    // now the last step went down, so Up is ignored
    go(&mut snake, Direction::Up, FAR);
    assert_eq!(head(&snake), Block(4, 3));
}

#[test]
fn request_is_used_up_by_one_step() {
    let mut snake = Snake::new(5, 5);
    go(&mut snake, Direction::Right, FAR);
    go(&mut snake, Direction::Down, FAR);
    assert_eq!(head(&snake), Block(3, 3));
    snake.tick(&FAR);
    assert_eq!(head(&snake), Block(4, 3));
}

#[test]
fn eating_adds_one_cell_and_keeps_the_tail() {
    let mut snake = Snake::new(5, 5);
    assert_eq!(go(&mut snake, Direction::Right, Block(2, 3)), SnakeTickOutcomes::GenerateNewFood);
    assert_eq!(snake.length(), 2);
    assert_eq!(snake.to_blocks(), vec![Block(2, 2), Block(2, 3)]);
    assert_eq!(go(&mut snake, Direction::Down, Block(3, 3)), SnakeTickOutcomes::GenerateNewFood);
    assert_eq!(snake.length(), 3);
    assert_eq!(snake.to_blocks(), vec![Block(2, 2), Block(2, 3), Block(3, 3)]);
}

#[test]
fn step_without_food_moves_every_cell_on() {
    let mut snake = long_snake();
    assert_eq!(
        snake.to_blocks(),
        vec![Block(2, 2), Block(2, 3), Block(2, 4), Block(2, 0), Block(2, 1)]
    );
    assert_eq!(go(&mut snake, Direction::Down, FAR), SnakeTickOutcomes::Nothing);
    assert_eq!(
        snake.to_blocks(),
        vec![Block(2, 3), Block(2, 4), Block(2, 0), Block(2, 1), Block(3, 1)]
    );
    assert_eq!(snake.length(), 5);
}

#[test]
fn blocks_run_from_the_oldest_cell_to_the_head() {
    let mut snake = Snake::new(5, 5);
    go(&mut snake, Direction::Up, Block(1, 2));
    go(&mut snake, Direction::Left, Block(1, 1));
    assert_eq!(snake.to_blocks(), vec![Block(2, 2), Block(1, 2), Block(1, 1)]);
    assert_eq!(head(&snake), Block(1, 1));
}

#[test]
fn coordinates_are_rows_and_columns_in_turn() {
    let mut snake = Snake::new(5, 5);
    assert_eq!(snake.to_coordinates(), vec![2, 2]);
    go(&mut snake, Direction::Up, Block(1, 2));
    go(&mut snake, Direction::Left, Block(1, 1));
    assert_eq!(snake.to_coordinates(), vec![2, 2, 1, 2, 1, 1]);
}

#[test]
fn occupies_tells_the_cells_of_the_snake_from_the_others() {
    let snake = long_snake();
    for col in 0..5 {
        assert!(snake.occupies(&Block(2, col)));
        assert!(!snake.occupies(&Block(1, col)));
        assert!(!snake.occupies(&Block(3, col)));
    }
}

#[test]
fn stepping_onto_the_oldest_cell_is_a_collision() {
    let mut snake = long_snake();
    // the tail is not shortened before the check, so its last cell counts
    assert_eq!(go(&mut snake, Direction::Right, FAR), SnakeTickOutcomes::CollidedWithSelf);
}

#[test]
fn turning_back_into_the_body_is_a_collision() {
    let mut snake = long_snake();
    assert_eq!(go(&mut snake, Direction::Down, FAR), SnakeTickOutcomes::Nothing);
    assert_eq!(go(&mut snake, Direction::Left, FAR), SnakeTickOutcomes::Nothing);
    assert_eq!(head(&snake), Block(3, 0));
    assert_eq!(go(&mut snake, Direction::Up, FAR), SnakeTickOutcomes::CollidedWithSelf);
}

#[test]
fn collision_leaves_the_snake_as_it_collided() {
    let mut snake = long_snake();
    assert_eq!(go(&mut snake, Direction::Right, FAR), SnakeTickOutcomes::CollidedWithSelf);
    assert_eq!(snake.length(), 5);
    assert_eq!(
        snake.to_blocks(),
        vec![Block(2, 2), Block(2, 3), Block(2, 4), Block(2, 0), Block(2, 1), Block(2, 2)]
    );
}

#[test]
fn collision_comes_before_food() {
    let mut snake = long_snake();
    assert_eq!(
        go(&mut snake, Direction::Right, Block(2, 2)),
        SnakeTickOutcomes::CollidedWithSelf
    );
    assert_eq!(snake.length(), 5);
}

#[test]
fn on_an_axis_of_one_cell_a_step_along_it_collides_at_once() {
    let mut snake = Snake::new(1, 5);
    assert_eq!(go(&mut snake, Direction::Up, FAR), SnakeTickOutcomes::CollidedWithSelf);
    assert_eq!(snake.to_blocks(), vec![Block(0, 2), Block(0, 2)]);
    assert_eq!(snake.length(), 1);

    let mut snake = Snake::new(5, 1);
    assert_eq!(go(&mut snake, Direction::Right, FAR), SnakeTickOutcomes::CollidedWithSelf);
}

#[test]
fn snake_of_two_cells_cannot_reverse_on_a_ring_of_two() {
    let mut snake = Snake::new(1, 2);
    assert_eq!(snake.to_blocks(), vec![Block(0, 1)]);
    assert_eq!(go(&mut snake, Direction::Left, Block(0, 0)), SnakeTickOutcomes::GenerateNewFood);
    assert_eq!(snake.to_blocks(), vec![Block(0, 1), Block(0, 0)]);
    assert_eq!(snake.tick(&FAR), SnakeTickOutcomes::CollidedWithSelf);
}

#[test]
fn two_steps_to_the_right_the_second_onto_the_food() {
    let food = Block(2, 4);
    let mut snake = Snake::new(5, 5);
    assert_eq!(snake.to_blocks(), vec![Block(2, 2)]);
    snake.buffer_direction(Direction::Right);
    assert_eq!(snake.tick(&food), SnakeTickOutcomes::Nothing);
    assert_eq!(snake.to_blocks(), vec![Block(2, 3)]);
    snake.buffer_direction(Direction::Right);
    assert_eq!(snake.tick(&food), SnakeTickOutcomes::GenerateNewFood);
    assert_eq!(snake.length(), 2);
    assert_eq!(snake.to_blocks(), vec![Block(2, 3), Block(2, 4)]);
}
