use game_of_life::error::GridError;
use game_of_life::world::World;

fn live_cells(world: &World) -> Vec<(u32, u32)> {
    let mut found = Vec::new();
    for (row, column) in world.coordinates() {
        if world.is_alive(row, column) {
            found.push((row, column));
        }
    }
    found
}

fn world_with(rows: u32, columns: u32, alive: &[(u32, u32)]) -> World {
    let mut world = World::new(rows, columns);
    for &(row, column) in alive {
        world.update_cell(row, column, true);
    }
    world
}

#[test]
fn new_world_reports_its_dimensions() {
    let world = World::new(4, 7);
    assert_eq!(4, world.rows());
    assert_eq!(7, world.columns());
}

#[test]
fn new_world_has_no_live_cell() {
    let world = World::new(5, 6);
    for row in 0..5 {
        for column in 0..6 {
            assert_eq!(false, world.is_alive(row, column));
        }
    }
}

#[test]
fn update_cell_changes_only_that_cell() {
    let mut world = world_with(4, 5, &[(0, 0), (3, 4)]);
    world.update_cell(2, 3, true);
    assert_eq!(vec![(0, 0), (2, 3), (3, 4)], live_cells(&world));
    world.update_cell(0, 0, false);
    assert_eq!(vec![(2, 3), (3, 4)], live_cells(&world));
    assert_eq!(4, world.rows());
    assert_eq!(5, world.columns());
}

#[test]
fn coordinates_are_in_row_major_order() {
    let world = World::new(2, 3);
    assert_eq!(
        vec![(0, 0), (0, 1), (0, 2), (1, 0), (1, 1), (1, 2)],
        world.coordinates()
    );
}

#[test]
fn coordinates_cover_every_cell_once() {
    let world = World::new(7, 5);
    let cells = world.coordinates();
    assert_eq!(35, cells.len());
    for row in 0..7u32 {
        for column in 0..5u32 {
            assert_eq!((row, column), cells[(row * 5 + column) as usize]);
        }
    }
}

#[test]
fn coordinates_of_an_empty_grid_are_empty() {
    assert!(World::new(0, 5).coordinates().is_empty());
    assert!(World::new(5, 0).coordinates().is_empty());
    assert!(World::new(0, 0).coordinates().is_empty());
}

#[test]
fn for_each_cell_visits_the_last_row_and_column() {
    let world = World::new(3, 4);
    let mut seen = Vec::new();
    world.for_each_cell(|row, column| seen.push((row, column)));
    assert_eq!(12, seen.len());
    assert!(seen.contains(&(2, 3)));
    assert!(seen.contains(&(2, 0)));
    assert!(seen.contains(&(0, 3)));
}

#[test]
fn for_each_cell_visits_the_coordinates_in_order() {
    let world = World::new(3, 4);
    let mut seen = Vec::new();
    world.for_each_cell(|row, column| seen.push((row, column)));
    assert_eq!(world.coordinates(), seen);
}

#[test]
fn for_each_cell_visits_nothing_on_an_empty_grid() {
    let mut calls = 0;
    World::new(0, 9).for_each_cell(|_, _| calls += 1);
    World::new(9, 0).for_each_cell(|_, _| calls += 1);
    assert_eq!(0, calls);
}

#[test]
fn corner_cell_counts_only_neighbours_inside_the_grid() {
    let world = world_with(3, 3, &[(0, 1), (1, 0), (1, 1), (2, 2)]);
    assert_eq!(3, world.count_living_neighbours(0, 0));
    assert_eq!(1, world.count_living_neighbours(2, 2));
    assert_eq!(2, world.count_living_neighbours(0, 2));
    assert_eq!(2, world.count_living_neighbours(2, 0));
}

#[test]
fn edges_do_not_wrap_around() {
    let world = world_with(3, 3, &[(0, 2), (2, 0), (2, 2)]);
    assert_eq!(0, world.count_living_neighbours(0, 0));
}

#[test]
fn cell_does_not_count_itself() {
    let world = world_with(3, 3, &[(1, 1)]);
    assert_eq!(0, world.count_living_neighbours(1, 1));
    assert_eq!(1, world.count_living_neighbours(0, 0));
}

#[test]
fn full_neighbourhood_counts_eight() {
    let mut world = World::new(3, 3);
    for (row, column) in world.coordinates() {
        world.update_cell(row, column, true);
    }
    assert_eq!(8, world.count_living_neighbours(1, 1));
    assert_eq!(3, world.count_living_neighbours(0, 0));
    assert_eq!(5, world.count_living_neighbours(0, 1));
}

#[test]
fn single_cell_grid_has_no_neighbours() {
    let world = world_with(1, 1, &[(0, 0)]);
    assert_eq!(0, world.count_living_neighbours(0, 0));
    assert_eq!(false, world.next_state_of_cell(0, 0));
}

#[test]
fn dead_cell_with_two_neighbours_stays_dead() {
    let world = world_with(3, 3, &[(0, 0), (1, 0)]);
    assert_eq!(false, world.next_state_of_cell(1, 1));
}

#[test]
fn dead_cell_with_four_neighbours_stays_dead() {
    let world = world_with(3, 3, &[(0, 0), (1, 0), (2, 0), (0, 1)]);
    assert_eq!(false, world.next_state_of_cell(1, 1));
}

#[test]
fn lonely_live_cell_dies() {
    let world = world_with(3, 3, &[(1, 1)]);
    assert_eq!(false, world.next_state_of_cell(1, 1));
}

#[test]
fn next_state_keeps_the_dimensions() {
    let next = World::new(3, 8).next_state();
    assert_eq!(3, next.rows());
    assert_eq!(8, next.columns());
}

#[test]
fn next_state_leaves_its_grid_unchanged() {
    let world = world_with(5, 5, &[(1, 2), (2, 2), (3, 2)]);
    let before = live_cells(&world);
    let text = world.render_text();
    let next = world.next_state();
    assert_eq!(before, live_cells(&world));
    assert_eq!(text, world.render_text());
    assert_eq!(vec![(2, 1), (2, 2), (2, 3)], live_cells(&next));
}

#[test]
fn blinker_turns_and_turns_back() {
    let world = world_with(5, 5, &[(1, 2), (2, 2), (3, 2)]);
    let once = world.next_state();
    assert_eq!(vec![(2, 1), (2, 2), (2, 3)], live_cells(&once));
    let twice = once.next_state();
    assert_eq!(vec![(1, 2), (2, 2), (3, 2)], live_cells(&twice));
}

#[test]
fn next_state_judges_every_cell_by_the_same_generation() {
    let world = world_with(3, 3, &[(0, 0), (0, 1), (0, 2)]);
    let next = world.next_state();
    assert_eq!(vec![(0, 1), (1, 1)], live_cells(&next));
}

#[test]
fn block_is_a_still_life() {
    let block = [(2, 2), (2, 3), (3, 2), (3, 3)];
    let world = world_with(6, 6, &block);
    let next = world.next_state();
    assert_eq!(block.to_vec(), live_cells(&next));
    assert_eq!(world.render_text(), next.render_text());
    assert_eq!(block.to_vec(), live_cells(&next.next_state()));
}

#[test]
fn block_in_a_corner_is_a_still_life() {
    let block = [(0, 0), (0, 1), (1, 0), (1, 1)];
    let world = world_with(2, 2, &block);
    assert_eq!(block.to_vec(), live_cells(&world.next_state()));
}

#[test]
fn render_text_of_a_small_grid() {
    let world = world_with(2, 3, &[(0, 1), (1, 2)]);
    assert_eq!("\noxo\noox", world.render_text());
}

#[test]
fn render_text_of_a_dead_grid() {
    assert_eq!("\nooo\nooo", World::new(2, 3).render_text());
}

#[test]
fn render_text_of_an_empty_grid() {
    assert_eq!("", World::new(0, 4).render_text());
    assert_eq!("\n\n\n", World::new(3, 0).render_text());
}

#[test]
fn render_text_has_one_line_per_row() {
    let world = world_with(10, 10, &[(0, 0), (9, 9)]);
    let text = world.render_text();
    assert_eq!(110, text.chars().count());
    assert_eq!(10, text.chars().filter(|&ch| ch == '\n').count());
    let lines: Vec<&str> = text.split('\n').collect();
    assert_eq!(11, lines.len());
    assert_eq!("", lines[0]);
    for line in &lines[1..] {
        assert_eq!(10, line.chars().count());
        assert!(line.chars().all(|ch| ch == 'x' || ch == 'o'));
    }
    assert_eq!("xooooooooo", lines[1]);
    assert_eq!("ooooooooox", lines[10]);
}

#[test]
fn try_new_makes_a_dead_grid() {
    let world = World::try_new(3, 4).unwrap();
    assert_eq!(3, world.rows());
    assert_eq!(4, world.columns());
    assert!(live_cells(&world).is_empty());
}

#[test]
fn try_new_accepts_an_empty_grid() {
    let world = World::try_new(0, 0).unwrap();
    assert_eq!(0, world.rows());
    assert_eq!(0, world.columns());
}

#[test]
fn try_new_refuses_negative_dimensions() {
    assert_eq!(Some(GridError::InvalidDimension), World::try_new(-1, 3).err());
    assert_eq!(Some(GridError::InvalidDimension), World::try_new(3, -1).err());
    assert_eq!(
        Some(GridError::InvalidDimension),
        World::try_new(i64::MIN, i64::MIN).err()
    );
}

#[test]
fn try_new_refuses_dimensions_too_large() {
    assert_eq!(
        Some(GridError::InvalidDimension),
        World::try_new(4_294_967_296, 1).err()
    );
    assert_eq!(
        Some(GridError::InvalidDimension),
        World::try_new(1, i64::MAX).err()
    );
}

#[test]
fn try_is_alive_reads_a_cell() {
    let world = world_with(3, 3, &[(2, 1)]);
    assert_eq!(Ok(true), world.try_is_alive(2, 1));
    assert_eq!(Ok(false), world.try_is_alive(1, 2));
}

#[test]
fn try_is_alive_refuses_coordinates_outside() {
    let world = World::new(3, 4);
    assert_eq!(Err(GridError::OutOfBounds), world.try_is_alive(3, 0));
    assert_eq!(Err(GridError::OutOfBounds), world.try_is_alive(0, 4));
    assert_eq!(Err(GridError::OutOfBounds), world.try_is_alive(u32::MAX, u32::MAX));
    assert_eq!(Ok(false), world.try_is_alive(2, 3));
}

#[test]
fn try_update_cell_sets_a_cell() {
    let mut world = World::new(3, 3);
    assert_eq!(Ok(()), world.try_update_cell(1, 2, true));
    assert_eq!(vec![(1, 2)], live_cells(&world));
}

#[test]
fn try_update_cell_refuses_coordinates_outside_and_changes_nothing() {
    let mut world = world_with(3, 3, &[(1, 1)]);
    assert_eq!(Err(GridError::OutOfBounds), world.try_update_cell(3, 1, true));
    assert_eq!(Err(GridError::OutOfBounds), world.try_update_cell(1, 3, true));
    assert_eq!(vec![(1, 1)], live_cells(&world));
}

#[test]
fn try_count_living_neighbours_counts() {
    let world = world_with(3, 3, &[(0, 0), (0, 2), (2, 0), (2, 2)]);
    assert_eq!(Ok(4), world.try_count_living_neighbours(1, 1));
    assert_eq!(
        Err(GridError::OutOfBounds),
        world.try_count_living_neighbours(3, 3)
    );
}

#[test]
fn try_next_state_of_cell_applies_the_rule() {
    let world = world_with(3, 3, &[(0, 0), (1, 0), (2, 0)]);
    assert_eq!(Ok(true), world.try_next_state_of_cell(1, 1));
    assert_eq!(Ok(false), world.try_next_state_of_cell(0, 2));
    assert_eq!(
        Err(GridError::OutOfBounds),
        world.try_next_state_of_cell(0, 3)
    );
}

#[test]
fn empty_grid_refuses_every_coordinate() {
    let world = World::new(0, 0);
    assert_eq!(Err(GridError::OutOfBounds), world.try_is_alive(0, 0));
}
