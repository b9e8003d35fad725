use game_of_life::cell::Cell;
use game_of_life::world::World;

fn world_of(sites: &[(i32, i32)]) -> World {
    World { cells: sites.iter().map(|&(x, y)| Cell { x, y }).collect() }
}

fn listed(world: &World) -> Vec<(i32, i32)> {
    world.cells.iter().map(|cell| (cell.x, cell.y)).collect()
}

fn sorted(world: &World) -> Vec<(i32, i32)> {
    let mut sites = listed(world);
    sites.sort();
    sites
}

#[test]
fn empty_world_stays_empty() {
    let mut world = world_of(&[]);
    world.process();
    assert!(world.cells.is_empty());
}

#[test]
fn block_is_a_still_life() {
    let mut world = world_of(&[(0, 0), (1, 0), (0, 1), (1, 1)]);
    world.process();
    assert_eq!(sorted(&world), vec![(0, 0), (0, 1), (1, 0), (1, 1)]);
    world.process();
    assert_eq!(sorted(&world), vec![(0, 0), (0, 1), (1, 0), (1, 1)]);
}

#[test]
fn block_comes_out_in_the_order_of_the_candidates() {
    let mut world = world_of(&[(0, 0), (1, 0), (0, 1), (1, 1)]);
    world.process();
    assert_eq!(listed(&world), vec![(0, 0), (0, 1), (1, 0), (1, 1)]);
}

#[test]
fn blinker_has_period_two() {
    let mut world = world_of(&[(0, 0), (1, 0), (2, 0)]);
    world.process();
    assert_eq!(listed(&world), vec![(1, -1), (1, 0), (1, 1)]);
    world.process();
    assert_eq!(listed(&world), vec![(0, 0), (1, 0), (2, 0)]);
}

#[test]
fn lonely_cell_dies() {
    let mut world = world_of(&[(5, 5)]);
    world.process();
    assert!(world.cells.is_empty());
}

#[test]
fn pair_of_cells_dies() {
    let mut world = world_of(&[(0, 0), (1, 1)]);
    world.process();
    assert!(world.cells.is_empty());
}

#[test]
fn packed_square_loses_centre_and_edges() {
    let mut world =
        world_of(&[(-1, -1), (-1, 0), (-1, 1), (0, -1), (0, 0), (0, 1), (1, -1), (1, 0), (1, 1)]);
    world.process();
    assert!(!world.contains(&Cell { x: 0, y: 0 }));
    assert!(!world.contains(&Cell { x: 0, y: 1 }));
    assert!(!world.contains(&Cell { x: 1, y: 0 }));
    assert!(world.contains(&Cell { x: 1, y: 1 }));
    assert!(world.contains(&Cell { x: 0, y: 2 }));
    assert_eq!(
        listed(&world),
        vec![(-2, 0), (-1, -1), (0, -2), (-1, 1), (0, 2), (1, -1), (1, 1), (2, 0)]
    );
}

#[test]
fn glider_takes_its_next_shape() {
    let mut world = world_of(&[(0, 1), (1, 0), (-1, -1), (0, -1), (1, -1)]);
    world.process();
    assert_eq!(listed(&world), vec![(-1, 0), (1, 0), (0, -1), (1, -1), (0, -2)]);
}

#[test]
fn cell_listed_twice_counts_twice_for_others() {
    let mut world = world_of(&[(1, 0), (1, 0), (0, 1)]);
    world.process();
    assert_eq!(listed(&world), vec![(0, 0), (0, 1), (1, 1)]);
}

#[test]
fn cell_listed_twice_is_not_its_own_neighbour() {
    let mut world = world_of(&[(0, 0), (0, 0)]);
    world.process();
    assert!(world.cells.is_empty());
}

#[test]
fn step_lists_no_cell_twice() {
    let mut world = world_of(&[(0, 0), (0, 0), (1, 0), (0, 1)]);
    world.process();
    let sites = listed(&world);
    assert_eq!(sites, vec![(-1, 0), (-1, 1), (0, -1), (0, 0), (0, 1), (1, -1), (1, 0)]);
    for a in 0..sites.len() {
        for b in 0..a {
            assert_ne!(sites[a], sites[b]);
        }
    }
}

#[test]
fn diagonal_neighbours_count() {
    let mut world = world_of(&[(0, 0), (2, 0), (1, 1)]);
    world.process();
    assert_eq!(sorted(&world), vec![(1, 0), (1, 1)]);
}

#[test]
fn world_grows_past_its_first_cells() {
    let mut world = world_of(&[(100, -7), (101, -7), (102, -7)]);
    world.process();
    assert_eq!(listed(&world), vec![(101, -8), (101, -7), (101, -6)]);
}

#[test]
fn can_process_asks_for_room_on_every_side() {
    assert!(world_of(&[]).can_process());
    assert!(world_of(&[(0, 0), (i32::MAX - 1, i32::MIN + 1)]).can_process());
    assert!(!world_of(&[(0, 0), (i32::MAX, 0)]).can_process());
    assert!(!world_of(&[(i32::MIN, 0)]).can_process());
    assert!(!world_of(&[(0, i32::MAX)]).can_process());
    assert!(!world_of(&[(0, i32::MIN), (1, 1)]).can_process());
}

#[test]
fn step_works_next_to_the_limits() {
    let top = i32::MAX - 1;
    let mut world = world_of(&[(top, 0), (top, 1), (top, 2)]);
    assert!(world.can_process());
    world.process();
    assert_eq!(sorted(&world), vec![(top - 1, 1), (top, 1), (i32::MAX, 1)]);
    assert!(!world.can_process());
}

#[test]
fn far_cells_are_no_neighbours() {
    let mut world = world_of(&[(i32::MIN + 1, 0), (i32::MAX - 1, 0), (0, 0)]);
    world.process();
    assert!(world.cells.is_empty());
}

#[test]
fn contains_finds_a_cell_however_often_it_is_listed() {
    let world = world_of(&[(3, 4), (3, 4), (-1, 0)]);
    assert!(world.contains(&Cell { x: 3, y: 4 }));
    assert!(world.contains(&Cell { x: -1, y: 0 }));
    assert!(!world.contains(&Cell { x: 4, y: 3 }));
    assert!(!world_of(&[]).contains(&Cell { x: 0, y: 0 }));
}

#[test]
fn set_cells_replaces_the_whole_world() {
    let mut world = world_of(&[(1, 1), (2, 2)]);
    world.set_cells(vec![Cell { x: 7, y: 8 }]);
    assert_eq!(listed(&world), vec![(7, 8)]);
    world.set_cells(vec![]);
    assert!(world.cells.is_empty());
}

#[test]
fn process_old_moves_every_cell_right() {
    let mut world = world_of(&[(0, 0), (-5, 3), (-5, 3), (i32::MAX - 1, i32::MIN)]);
    world.process_old();
    assert_eq!(listed(&world), vec![(1, 0), (-4, 3), (-4, 3), (i32::MAX, i32::MIN)]);
}
