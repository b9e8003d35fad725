use game_of_life::cell::Cell;
use game_of_life::outline::Vertex;
use game_of_life::world::World;

fn world_of(sites: &[(i32, i32)]) -> World {
    World { cells: sites.iter().map(|&(x, y)| Cell { x, y }).collect() }
}

fn on_screen(vertices: &[Vertex], dx: f32, dy: f32, zoom: f32) -> Vec<f32> {
    let mut floats = vec![];
    for vertex in vertices {
        let x = if vertex.right { vertex.cell.x as f32 + 0.5 } else { vertex.cell.x as f32 - 0.5 };
        let y = if vertex.upper { vertex.cell.y as f32 + 0.5 } else { vertex.cell.y as f32 - 0.5 };
        floats.extend_from_slice(&[x * zoom + dx, y * zoom - dy, 0.0, 1.0, 1.0, 1.0]);
    }
    floats
}

#[test]
fn one_cell_gives_two_triangles() {
    let cell = Cell { x: 0, y: 0 };
    let vertices = world_of(&[(0, 0)]).get_vec_vertices();
    assert_eq!(
        vertices,
        vec![
            Vertex { cell, right: false, upper: false },
            Vertex { cell, right: false, upper: true },
            Vertex { cell, right: true, upper: true },
            Vertex { cell, right: true, upper: true },
            Vertex { cell, right: true, upper: false },
            Vertex { cell, right: false, upper: false },
        ]
    );
}

#[test]
fn one_cell_at_the_origin_on_screen() {
    let vertices = world_of(&[(0, 0)]).get_vec_vertices();
    assert_eq!(
        on_screen(&vertices, 0.0, 0.0, 1.0),
        vec![
            -0.5, -0.5, 0.0, 1.0, 1.0, 1.0, -0.5, 0.5, 0.0, 1.0, 1.0, 1.0, 0.5, 0.5, 0.0, 1.0, 1.0,
            1.0, 0.5, 0.5, 0.0, 1.0, 1.0, 1.0, 0.5, -0.5, 0.0, 1.0, 1.0, 1.0, -0.5, -0.5, 0.0, 1.0,
            1.0, 1.0,
        ]
    );
}

#[test]
fn camera_adds_the_horizontal_offset_and_takes_off_the_vertical() {
    let vertices = world_of(&[(2, -3)]).get_vec_vertices();
    let floats = on_screen(&vertices, 1.0, 0.25, 2.0);
    assert_eq!(floats.len(), 36);
    assert_eq!(&floats[0..3], &[4.0, -7.25, 0.0]);
    assert_eq!(&floats[12..15], &[6.0, -5.25, 0.0]);
}

#[test]
fn empty_world_has_no_vertices() {
    assert!(world_of(&[]).get_vec_vertices().is_empty());
}

#[test]
fn cell_listed_twice_is_outlined_twice() {
    let vertices = world_of(&[(4, 4), (4, 4)]).get_vec_vertices();
    assert_eq!(vertices.len(), 12);
    assert_eq!(on_screen(&vertices, 0.0, 0.0, 1.0).len(), 72);
    assert_eq!(&vertices[0..6], &vertices[6..12]);
}

#[test]
fn duplicates_are_gone_after_one_step() {
    let mut world = world_of(&[(0, 0), (0, 0), (1, 0), (1, 0), (0, 1), (0, 1)]);
    assert_eq!(world.get_vec_vertices().len(), 36);
    world.process();
    for a in 0..world.cells.len() {
        for b in 0..a {
            assert_ne!(world.cells[a], world.cells[b]);
        }
    }
}

#[test]
fn vertices_follow_the_order_of_the_cells() {
    let vertices = world_of(&[(1, 2), (-3, 4), (5, -6)]).get_vec_vertices();
    assert_eq!(vertices.len(), 18);
    for (k, vertex) in vertices.iter().enumerate() {
        let expected = [(1, 2), (-3, 4), (5, -6)][k / 6];
        assert_eq!((vertex.cell.x, vertex.cell.y), expected);
        assert_eq!((vertex.right, vertex.upper), [
            (false, false),
            (false, true),
            (true, true),
            (true, true),
            (true, false),
            (false, false),
        ][k % 6]);
    }
}
