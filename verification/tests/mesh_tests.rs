use particle_sim::mesh::{
    create_cube_mesh, create_spring, grid_balls, grid_links, grid_size, GridCell, JMesh, MeshError,
    Span, Spring, SPRINGS_GRID, SPRINGS_X, SPRINGS_Z,
};

fn spring(ball1_index: usize, ball2_index: usize, span: Span) -> Spring {
    Spring { ball1_index, ball2_index, span }
}

#[test]
fn grid_mesh_counts_balls_and_springs() {
    let mesh = create_cube_mesh(3, 2, SPRINGS_GRID).unwrap();
    assert_eq!(mesh.balls.len(), 12);
    assert_eq!(mesh.springs.len(), 3 * 3 + 2 * 4);
    assert!(mesh.springs.iter().all(|s| s.span != Span::Diagonal));
}

#[test]
fn cross_mesh_has_two_diagonals_per_square_and_nothing_else() {
    let mesh = create_cube_mesh(3, 2, SPRINGS_X).unwrap();
    assert_eq!(mesh.balls.len(), 12);
    assert_eq!(mesh.springs.len(), 2 * 3 * 2);
    assert!(mesh.springs.iter().all(|s| s.span == Span::Diagonal));
}

#[test]
fn z_mesh_has_the_springs_of_both_patterns() {
    let mesh = create_cube_mesh(3, 2, SPRINGS_Z).unwrap();
    assert_eq!(mesh.springs.len(), 17 + 12);
    let diagonals = mesh.springs.iter().filter(|s| s.span == Span::Diagonal).count();
    assert_eq!(diagonals, 12);
}

#[test]
fn selector_without_a_pattern_gives_no_springs() {
    for method in [0u8, 4u8, 255u8] {
        let mesh = create_cube_mesh(2, 2, method).unwrap();
        assert_eq!(mesh.balls.len(), 9);
        assert!(mesh.springs.is_empty());
    }
}

#[test]
fn balls_follow_the_index_convention() {
    let subdivision_x = 4;
    let subdivision_y = 2;
    let mesh = create_cube_mesh(subdivision_x, subdivision_y, SPRINGS_GRID).unwrap();
    for i in 0..=subdivision_x {
        for j in 0..=subdivision_y {
            assert_eq!(mesh.balls[i * (subdivision_y + 1) + j], GridCell { i, j });
        }
    }
}

#[test]
fn one_square_grid_pattern_is_exact() {
    let mesh = create_cube_mesh(1, 1, SPRINGS_GRID).unwrap();
    assert_eq!(
        mesh.springs,
        vec![
            spring(0, 2, Span::AlongX),
            spring(0, 1, Span::AlongY),
            spring(1, 3, Span::AlongX),
            spring(2, 3, Span::AlongY),
        ]
    );
}

#[test]
fn one_square_cross_pattern_is_exact() {
    let mesh = create_cube_mesh(1, 1, SPRINGS_X).unwrap();
    assert_eq!(mesh.springs, vec![spring(0, 3, Span::Diagonal), spring(1, 2, Span::Diagonal)]);
}

#[test]
fn one_square_z_pattern_is_exact() {
    let mesh = create_cube_mesh(1, 1, SPRINGS_Z).unwrap();
    assert_eq!(
        mesh.springs,
        vec![
            spring(0, 2, Span::AlongX),
            spring(0, 1, Span::AlongY),
            spring(0, 3, Span::Diagonal),
            spring(1, 3, Span::AlongX),
            spring(1, 2, Span::Diagonal),
            spring(2, 3, Span::AlongY),
        ]
    );
}

#[test]
fn single_ball_mesh_has_no_springs() {
    for method in [SPRINGS_GRID, SPRINGS_Z, SPRINGS_X] {
        let mesh = create_cube_mesh(0, 0, method).unwrap();
        assert_eq!(mesh.balls, vec![GridCell { i: 0, j: 0 }]);
        assert!(mesh.springs.is_empty());
    }
}

#[test]
fn single_column_has_only_vertical_springs() {
    let mesh = create_cube_mesh(0, 3, SPRINGS_Z).unwrap();
    assert_eq!(
        mesh.springs,
        vec![spring(0, 1, Span::AlongY), spring(1, 2, Span::AlongY), spring(2, 3, Span::AlongY)]
    );
}

#[test]
fn grid_that_does_not_fit_is_refused() {
    assert_eq!(create_cube_mesh(usize::MAX, 0, SPRINGS_GRID).err(), Some(MeshError::GridTooLarge));
    assert_eq!(create_cube_mesh(0, usize::MAX, SPRINGS_GRID).err(), Some(MeshError::GridTooLarge));
    assert_eq!(
        create_cube_mesh(usize::MAX / 2, 2, SPRINGS_X).err(),
        Some(MeshError::GridTooLarge)
    );
}

#[test]
fn grid_size_is_the_product_of_columns_and_rows() {
    assert_eq!(grid_size(0, 0), Some(1));
    assert_eq!(grid_size(3, 2), Some(12));
    assert_eq!(grid_size(usize::MAX - 1, 0), Some(usize::MAX));
    assert_eq!(grid_size(usize::MAX, 0), None);
    assert_eq!(grid_size(usize::MAX / 2, 1), None);
}

#[test]
fn grid_balls_run_down_the_columns() {
    assert_eq!(
        grid_balls(1, 2),
        vec![
            GridCell { i: 0, j: 0 },
            GridCell { i: 0, j: 1 },
            GridCell { i: 0, j: 2 },
            GridCell { i: 1, j: 0 },
            GridCell { i: 1, j: 1 },
            GridCell { i: 1, j: 2 },
        ]
    );
}

#[test]
fn grid_links_match_the_mesh() {
    for method in [SPRINGS_GRID, SPRINGS_Z, SPRINGS_X, 9u8] {
        let mesh = create_cube_mesh(2, 3, method).unwrap();
        assert_eq!(grid_links(2, 3, method), mesh.springs);
    }
}

#[test]
fn create_spring_uses_the_index_convention() {
    let made = create_spring(2, 1, 3, 0, Span::Diagonal, 4);
    assert_eq!(made, spring(2 * 5 + 1, 3 * 5, Span::Diagonal));
    let made = create_spring(0, 0, 0, 1, Span::AlongY, 0);
    assert_eq!(made, spring(0, 1, Span::AlongY));
}

#[test]
fn springs_run_from_lower_to_higher_index_inside_the_mesh() {
    for method in [SPRINGS_GRID, SPRINGS_Z, SPRINGS_X] {
        let mesh = create_cube_mesh(4, 3, method).unwrap();
        for s in &mesh.springs {
            assert!(s.ball1_index < s.ball2_index);
            assert!(s.ball2_index < mesh.balls.len());
        }
        assert_eq!(mesh.validate(), Ok(()));
    }
}

#[test]
fn every_cell_has_its_springs_in_the_z_pattern() {
    let subdivision_x = 3;
    let subdivision_y = 2;
    let mesh = create_cube_mesh(subdivision_x, subdivision_y, SPRINGS_Z).unwrap();
    let rows = subdivision_y + 1;
    for i in 0..=subdivision_x {
        for j in 0..=subdivision_y {
            let here = i * rows + j;
            let right = spring(here, here + rows, Span::AlongX);
            let down = spring(here, here + 1, Span::AlongY);
            let down_right = spring(here, here + rows + 1, Span::Diagonal);
            assert_eq!(mesh.springs.contains(&right), i < subdivision_x);
            assert_eq!(mesh.springs.contains(&down), j < subdivision_y);
            assert_eq!(
                mesh.springs.contains(&down_right),
                i < subdivision_x && j < subdivision_y
            );
            if j > 0 {
                let up_right = spring(here, here + rows - 1, Span::Diagonal);
                assert_eq!(mesh.springs.contains(&up_right), i < subdivision_x);
            }
        }
    }
}

#[test]
fn validate_names_the_first_spring_out_of_range() {
    let mut mesh = create_cube_mesh(1, 1, SPRINGS_GRID).unwrap();
    mesh.springs[2] = spring(1, 4, Span::AlongX);
    mesh.springs[3] = spring(9, 3, Span::AlongY);
    assert_eq!(mesh.validate(), Err(MeshError::SpringOutOfRange { spring: 2 }));
    let empty = JMesh { balls: Vec::new(), springs: vec![spring(0, 0, Span::AlongX)] };
    assert_eq!(empty.validate(), Err(MeshError::SpringOutOfRange { spring: 0 }));
    let bare = JMesh { balls: Vec::new(), springs: Vec::new() };
    assert_eq!(bare.validate(), Ok(()));
}
