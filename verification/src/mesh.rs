//! Rectangular spring meshes: a grid of balls and the springs that join them.

use vstd::prelude::*;
use vstd::arithmetic::div_mod::lemma_fundamental_div_mod_converse;
use vstd::seq_lib::lemma_seq_concat_contains_all_elements;

verus! {

/// Connectivity selector: axis-aligned springs only.
pub const SPRINGS_GRID: u8 = 1;

/// Connectivity selector: axis-aligned springs and both diagonals.
pub const SPRINGS_Z: u8 = 2;

/// Connectivity selector: the two diagonals only.
pub const SPRINGS_X: u8 = 3;

/// The direction a spring runs in the undeformed grid, which fixes its
/// rest length: one column spacing, one row spacing, or the diagonal of a
/// cell.
#[derive(Clone, Copy, Debug, PartialEq, Eq, Structural)]
pub enum Span {
    AlongX,
    AlongY,
    Diagonal,
}

/// A spring between two balls of one mesh, named by their indices.
#[derive(Clone, Copy, Debug, PartialEq, Eq, Structural)]
pub struct Spring {
    pub ball1_index: usize,
    pub ball2_index: usize,
    pub span: Span,
}

/// The place of a ball in the undeformed grid: column `i`, row `j`.
#[derive(Clone, Copy, Debug, PartialEq, Eq, Structural)]
pub struct GridCell {
    pub i: usize,
    pub j: usize,
}

/// A mesh: its balls in index order and its springs in creation order.
#[derive(Clone, Debug)]
pub struct JMesh {
    pub balls: Vec<GridCell>,
    pub springs: Vec<Spring>,
}

/// Why a mesh could not be built.
#[derive(Clone, Copy, Debug, PartialEq, Eq, Structural)]
pub enum MeshError {
    /// The number of balls does not fit in `usize`.
    GridTooLarge,
    /// The spring at this place in the list names a ball that the mesh
    /// does not have.
    SpringOutOfRange { spring: usize },
}

/// Index of the ball in column `i`, row `j` of a grid with
/// `subdivision_y + 1` rows.
pub open spec fn ball_index(i: int, j: int, subdivision_y: int) -> int {
    i * (subdivision_y + 1) + j
}

/// Number of balls of a grid.
pub open spec fn ball_count(subdivision_x: int, subdivision_y: int) -> int {
    (subdivision_x + 1) * (subdivision_y + 1)
}

/// The grid cell that the ball with index `k` sits in.
pub open spec fn cell_of(k: int, subdivision_y: int) -> GridCell {
    GridCell {
        i: (k / (subdivision_y + 1)) as usize,
        j: (k % (subdivision_y + 1)) as usize,
    }
}

/// The balls of a grid, in index order.
pub open spec fn mesh_balls(subdivision_x: int, subdivision_y: int) -> Seq<GridCell> {
    Seq::new(ball_count(subdivision_x, subdivision_y) as nat, |k: int| cell_of(k, subdivision_y))
}

/// The spring from cell `(i1, j1)` to cell `(i2, j2)`.
pub open spec fn link(i1: int, j1: int, i2: int, j2: int, span: Span, subdivision_y: int) -> Spring {
    Spring {
        ball1_index: ball_index(i1, j1, subdivision_y) as usize,
        ball2_index: ball_index(i2, j2, subdivision_y) as usize,
        span,
    }
}

/// Whether a connectivity selector asks for the axis-aligned springs.
pub open spec fn has_axis_springs(spring_method: u8) -> bool {
    spring_method == SPRINGS_GRID || spring_method == SPRINGS_Z
}

/// Whether a connectivity selector asks for the diagonal springs.
pub open spec fn has_diagonal_springs(spring_method: u8) -> bool {
    spring_method == SPRINGS_Z || spring_method == SPRINGS_X
}

/// The springs that start at cell `(i, j)`: to the right, downwards,
/// down-right and up-right, each where the selector asks for it and the
/// far end is inside the grid.
pub open spec fn cell_springs(
    spring_method: u8,
    i: int,
    j: int,
    subdivision_x: int,
    subdivision_y: int,
) -> Seq<Spring> {
    let axis = has_axis_springs(spring_method);
    let diagonal = has_diagonal_springs(spring_method);
    let right: Seq<Spring> = if axis && i < subdivision_x {
        seq![link(i, j, i + 1, j, Span::AlongX, subdivision_y)]
    } else {
        Seq::empty()
    };
    let down: Seq<Spring> = if axis && j < subdivision_y {
        seq![link(i, j, i, j + 1, Span::AlongY, subdivision_y)]
    } else {
        Seq::empty()
    };
    let down_right: Seq<Spring> = if diagonal && i < subdivision_x && j < subdivision_y {
        seq![link(i, j, i + 1, j + 1, Span::Diagonal, subdivision_y)]
    } else {
        Seq::empty()
    };
    let up_right: Seq<Spring> = if diagonal && i < subdivision_x && j > 0 {
        seq![link(i, j, i + 1, j - 1, Span::Diagonal, subdivision_y)]
    } else {
        Seq::empty()
    };
    right + down + down_right + up_right
}

/// The springs that start in the first `rows` cells of column `i`.
pub open spec fn column_springs(
    spring_method: u8,
    i: int,
    rows: nat,
    subdivision_x: int,
    subdivision_y: int,
) -> Seq<Spring>
    decreases rows,
{
    if rows == 0 {
        Seq::empty()
    } else {
        column_springs(spring_method, i, (rows - 1) as nat, subdivision_x, subdivision_y)
            + cell_springs(spring_method, i, rows - 1, subdivision_x, subdivision_y)
    }
}

/// The springs that start in the first `columns` columns.
pub open spec fn grid_springs(
    spring_method: u8,
    columns: nat,
    subdivision_x: int,
    subdivision_y: int,
) -> Seq<Spring>
    decreases columns,
{
    if columns == 0 {
        Seq::empty()
    } else {
        grid_springs(spring_method, (columns - 1) as nat, subdivision_x, subdivision_y)
            + column_springs(
            spring_method,
            columns - 1,
            (subdivision_y + 1) as nat,
            subdivision_x,
            subdivision_y,
        )
    }
}

/// All springs of a mesh, in creation order: column by column, within a
/// column row by row, within a cell right, down, down-right, up-right.
pub open spec fn mesh_springs(spring_method: u8, subdivision_x: int, subdivision_y: int) -> Seq<Spring> {
    grid_springs(spring_method, (subdivision_x + 1) as nat, subdivision_x, subdivision_y)
}

/// A spring joins two balls of a collection of `count`.
pub open spec fn spring_in_range(spring: Spring, count: int) -> bool {
    spring.ball1_index < count && spring.ball2_index < count
}

impl JMesh {
    /// Every spring joins two balls of this mesh.
    pub open spec fn wf(&self) -> bool {
        forall|s: int|
            0 <= s < self.springs@.len() ==> spring_in_range(
                #[trigger] self.springs@[s],
                self.balls@.len() as int,
            )
    }

    /// Checks that every spring joins two balls of this mesh, and names
    /// the first that does not.
    pub fn validate(&self) -> (outcome: Result<(), MeshError>)
        ensures
            match outcome {
                Ok(_) => self.wf(),
                Err(MeshError::SpringOutOfRange { spring }) => {
                    &&& spring < self.springs@.len()
                    &&& !spring_in_range(self.springs@[spring as int], self.balls@.len() as int)
                    &&& forall|s: int|
                        0 <= s < spring ==> spring_in_range(
                            #[trigger] self.springs@[s],
                            self.balls@.len() as int,
                        )
                },
                Err(_) => false,
            },
    {
        let count: usize = self.balls.len();
        let mut s: usize = 0;
        while s < self.springs.len()
            invariant
                0 <= s <= self.springs@.len(),
                count == self.balls@.len(),
                forall|t: int|
                    0 <= t < s ==> spring_in_range(#[trigger] self.springs@[t], count as int),
            decreases self.springs@.len() - s,
        {
            let spring = self.springs[s];
            if spring.ball1_index >= count || spring.ball2_index >= count {
                return Err(MeshError::SpringOutOfRange { spring: s });
            }
            s = s + 1;
        }
        Ok(())
    }
}

/// Builds the spring from cell `(i1, j1)` to cell `(i2, j2)`.
pub fn create_spring(
    i1: usize,
    j1: usize,
    i2: usize,
    j2: usize,
    span: Span,
    subdivision_y: usize,
) -> (spring: Spring)
    requires
        ball_index(i1 as int, j1 as int, subdivision_y as int) <= usize::MAX,
        ball_index(i2 as int, j2 as int, subdivision_y as int) <= usize::MAX,
        subdivision_y < usize::MAX,
    ensures
        spring == link(i1 as int, j1 as int, i2 as int, j2 as int, span, subdivision_y as int),
{
    let rows: usize = subdivision_y + 1;
    assert(0 <= i1 * rows <= ball_index(i1 as int, j1 as int, subdivision_y as int)) by (nonlinear_arith)
        requires rows == subdivision_y + 1;
    assert(0 <= i2 * rows <= ball_index(i2 as int, j2 as int, subdivision_y as int)) by (nonlinear_arith)
        requires rows == subdivision_y + 1;
    Spring { ball1_index: i1 * rows + j1, ball2_index: i2 * rows + j2, span }
}

/// Division and remainder recover the cell from a ball's index.
pub proof fn lemma_cell_of_ball_index(i: int, j: int, subdivision_y: int)
    requires
        0 <= i <= usize::MAX,
        0 <= j <= subdivision_y,
        subdivision_y < usize::MAX,
    ensures
        cell_of(ball_index(i, j, subdivision_y), subdivision_y) == (GridCell {
            i: i as usize,
            j: j as usize,
        }),
{
    lemma_fundamental_div_mod_converse(ball_index(i, j, subdivision_y), subdivision_y + 1, i, j);
}

/// Builds the rectangular mesh with `subdivision_x + 1` columns and
/// `subdivision_y + 1` rows of balls, joined as `spring_method` selects.
/// A selector that names no pattern gives a mesh without springs.
pub fn create_cube_mesh(subdivision_x: usize, subdivision_y: usize, spring_method: u8) -> (made: Result<
    JMesh,
    MeshError,
>)
    ensures
        match made {
            Ok(mesh) => {
                &&& ball_count(subdivision_x as int, subdivision_y as int) <= usize::MAX
                &&& mesh.balls@ == mesh_balls(subdivision_x as int, subdivision_y as int)
                &&& mesh.springs@ == mesh_springs(
                    spring_method,
                    subdivision_x as int,
                    subdivision_y as int,
                )
                &&& mesh.balls@.len() == ball_count(subdivision_x as int, subdivision_y as int)
                &&& mesh.springs@.len() == spring_count(
                    spring_method,
                    subdivision_x as int,
                    subdivision_y as int,
                )
                &&& all_fit(mesh.springs@, spring_method, subdivision_x as int, subdivision_y as int)
                &&& mesh.wf()
            },
            Err(error) => {
                &&& error == MeshError::GridTooLarge
                &&& ball_count(subdivision_x as int, subdivision_y as int) > usize::MAX
            },
        },
{
    if grid_size(subdivision_x, subdivision_y).is_none() {
        return Err(MeshError::GridTooLarge);
    }
    let balls = grid_balls(subdivision_x, subdivision_y);
    let springs = grid_links(subdivision_x, subdivision_y, spring_method);
    let mesh = JMesh { balls, springs };
    proof {
        lemma_springs_in_range(spring_method, subdivision_x as int, subdivision_y as int);
        lemma_spring_count(spring_method, subdivision_x as int, subdivision_y as int);
    }
    Ok(mesh)
}

/// The number of balls of a grid, where it fits in `usize`.
pub fn grid_size(subdivision_x: usize, subdivision_y: usize) -> (size: Option<usize>)
    ensures
        match size {
            Some(total) => total == ball_count(subdivision_x as int, subdivision_y as int),
            None => ball_count(subdivision_x as int, subdivision_y as int) > usize::MAX,
        },
{
    let columns: usize = match subdivision_x.checked_add(1) {
        Some(columns) => columns,
        None => {
            assert((subdivision_x + 1) * (subdivision_y + 1) > usize::MAX) by (nonlinear_arith)
                requires
                    subdivision_x + 1 > usize::MAX,
                    subdivision_y >= 0,
            ;
            return None;
        },
    };
    let rows: usize = match subdivision_y.checked_add(1) {
        Some(rows) => rows,
        None => {
            assert((subdivision_x + 1) * (subdivision_y + 1) > usize::MAX) by (nonlinear_arith)
                requires
                    subdivision_y + 1 > usize::MAX,
                    subdivision_x >= 0,
            ;
            return None;
        },
    };
    columns.checked_mul(rows)
}

/// The balls of a grid in index order: column by column, downwards within
/// a column.
pub fn grid_balls(subdivision_x: usize, subdivision_y: usize) -> (balls: Vec<GridCell>)
    requires
        ball_count(subdivision_x as int, subdivision_y as int) <= usize::MAX,
    ensures
        balls@ == mesh_balls(subdivision_x as int, subdivision_y as int),
{
    let ghost rows: int = subdivision_y + 1;
    assert(subdivision_x < usize::MAX && subdivision_y < usize::MAX) by (nonlinear_arith)
        requires
            (subdivision_x + 1) * (subdivision_y + 1) <= usize::MAX,
            subdivision_x >= 0,
            subdivision_y >= 0,
    ;
    let mut balls: Vec<GridCell> = Vec::new();
    let mut i: usize = 0;
    while i <= subdivision_x
        invariant
            0 <= i <= subdivision_x + 1,
            subdivision_x < usize::MAX,
            subdivision_y < usize::MAX,
            rows == subdivision_y + 1,
            balls@.len() == i * rows,
            forall|k: int| 0 <= k < balls@.len() ==> balls@[k] == cell_of(k, subdivision_y as int),
        decreases subdivision_x + 1 - i,
    {
        let mut j: usize = 0;
        while j <= subdivision_y
            invariant
                0 <= i <= subdivision_x,
                0 <= j <= subdivision_y + 1,
                subdivision_x < usize::MAX,
                subdivision_y < usize::MAX,
                rows == subdivision_y + 1,
                balls@.len() == i * rows + j,
                forall|k: int| 0 <= k < balls@.len() ==> balls@[k] == cell_of(k, subdivision_y as int),
            decreases subdivision_y + 1 - j,
        {
            proof {
                lemma_cell_of_ball_index(i as int, j as int, subdivision_y as int);
            }
            balls.push(GridCell { i, j });
            j = j + 1;
        }
        assert(i * rows + rows == (i + 1) * rows) by (nonlinear_arith);
        i = i + 1;
    }
    assert(balls@ =~= mesh_balls(subdivision_x as int, subdivision_y as int));
    balls
}

/// The springs of a grid in creation order.
pub fn grid_links(subdivision_x: usize, subdivision_y: usize, spring_method: u8) -> (springs: Vec<Spring>)
    requires
        ball_count(subdivision_x as int, subdivision_y as int) <= usize::MAX,
    ensures
        springs@ == mesh_springs(spring_method, subdivision_x as int, subdivision_y as int),
{
    let axis = spring_method == SPRINGS_GRID || spring_method == SPRINGS_Z;
    let diagonal = spring_method == SPRINGS_Z || spring_method == SPRINGS_X;
    assert(subdivision_x < usize::MAX && subdivision_y < usize::MAX) by (nonlinear_arith)
        requires
            (subdivision_x + 1) * (subdivision_y + 1) <= usize::MAX,
            subdivision_x >= 0,
            subdivision_y >= 0,
    ;
    let mut springs: Vec<Spring> = Vec::new();
    let mut i: usize = 0;
    while i <= subdivision_x
        invariant
            0 <= i <= subdivision_x + 1,
            subdivision_x < usize::MAX,
            subdivision_y < usize::MAX,
            ball_count(subdivision_x as int, subdivision_y as int) <= usize::MAX,
            axis == has_axis_springs(spring_method),
            diagonal == has_diagonal_springs(spring_method),
            springs@ == grid_springs(spring_method, i as nat, subdivision_x as int, subdivision_y as int),
        decreases subdivision_x + 1 - i,
    {
        let ghost before = springs@;
        let mut j: usize = 0;
        while j <= subdivision_y
            invariant
                0 <= i <= subdivision_x,
                0 <= j <= subdivision_y + 1,
                subdivision_x < usize::MAX,
                subdivision_y < usize::MAX,
                ball_count(subdivision_x as int, subdivision_y as int) <= usize::MAX,
                axis == has_axis_springs(spring_method),
                diagonal == has_diagonal_springs(spring_method),
                springs@ == before + column_springs(
                    spring_method,
                    i as int,
                    j as nat,
                    subdivision_x as int,
                    subdivision_y as int,
                ),
            decreases subdivision_y + 1 - j,
        {
            let ghost start = springs@;
            proof {
                lemma_ball_index_in_range(i as int, j as int, subdivision_x as int, subdivision_y as int);
            }
            if axis && i < subdivision_x {
                proof {
                    lemma_ball_index_in_range(i + 1, j as int, subdivision_x as int, subdivision_y as int);
                }
                springs.push(create_spring(i, j, i + 1, j, Span::AlongX, subdivision_y));
            }
            if axis && j < subdivision_y {
                proof {
                    lemma_ball_index_in_range(i as int, j + 1, subdivision_x as int, subdivision_y as int);
                }
                springs.push(create_spring(i, j, i, j + 1, Span::AlongY, subdivision_y));
            }
            if diagonal && i < subdivision_x && j < subdivision_y {
                proof {
                    lemma_ball_index_in_range(i + 1, j + 1, subdivision_x as int, subdivision_y as int);
                }
                springs.push(create_spring(i, j, i + 1, j + 1, Span::Diagonal, subdivision_y));
            }
            if diagonal && i < subdivision_x && j > 0 {
                proof {
                    lemma_ball_index_in_range(i + 1, j - 1, subdivision_x as int, subdivision_y as int);
                }
                springs.push(create_spring(i, j, i + 1, j - 1, Span::Diagonal, subdivision_y));
            }
            assert(springs@ =~= start + cell_springs(
                spring_method,
                i as int,
                j as int,
                subdivision_x as int,
                subdivision_y as int,
            ));
            assert(springs@ =~= before + column_springs(
                spring_method,
                i as int,
                (j + 1) as nat,
                subdivision_x as int,
                subdivision_y as int,
            ));
            j = j + 1;
        }
        i = i + 1;
    }
    springs
}

/// A cell of the grid has a ball index below the number of balls.
pub proof fn lemma_ball_index_in_range(i: int, j: int, subdivision_x: int, subdivision_y: int)
    requires
        0 <= i <= subdivision_x,
        0 <= j <= subdivision_y,
    ensures
        0 <= ball_index(i, j, subdivision_y) < ball_count(subdivision_x, subdivision_y),
{
    assert(0 <= i * (subdivision_y + 1) + j < (subdivision_x + 1) * (subdivision_y + 1))
        by (nonlinear_arith)
        requires
            0 <= i <= subdivision_x,
            0 <= j <= subdivision_y,
    ;
}

/// Number of axis-aligned springs of a full grid: one to the right of
/// every cell but those of the last column, one below every cell but
/// those of the last row.
pub open spec fn axis_spring_count(subdivision_x: int, subdivision_y: int) -> int {
    subdivision_x * (subdivision_y + 1) + subdivision_y * (subdivision_x + 1)
}

/// Number of diagonal springs of a full grid: two across every square of
/// four neighbouring balls.
pub open spec fn diagonal_spring_count(subdivision_x: int, subdivision_y: int) -> int {
    2 * (subdivision_x * subdivision_y)
}

/// Number of springs that a selector gives on a grid.
pub open spec fn spring_count(spring_method: u8, subdivision_x: int, subdivision_y: int) -> int {
    (if has_axis_springs(spring_method) {
        axis_spring_count(subdivision_x, subdivision_y)
    } else {
        0
    }) + (if has_diagonal_springs(spring_method) {
        diagonal_spring_count(subdivision_x, subdivision_y)
    } else {
        0
    })
}

/// A spring is in order for a selector and a grid: it runs from a lower
/// ball index to a higher one, both of the grid, and its direction is one
/// that the selector asks for.
pub open spec fn spring_fits(spring: Spring, spring_method: u8, subdivision_x: int, subdivision_y: int) -> bool {
    &&& spring.ball1_index < spring.ball2_index
    &&& spring.ball2_index < ball_count(subdivision_x, subdivision_y)
    &&& spring.span == Span::Diagonal ==> has_diagonal_springs(spring_method)
    &&& spring.span != Span::Diagonal ==> has_axis_springs(spring_method)
}

/// Every spring of a sequence is in order.
pub open spec fn all_fit(springs: Seq<Spring>, spring_method: u8, subdivision_x: int, subdivision_y: int) -> bool {
    forall|s: int|
        0 <= s < springs.len() ==> spring_fits(
            #[trigger] springs[s],
            spring_method,
            subdivision_x,
            subdivision_y,
        )
}

/// Springs started in the first `rows` cells of column `i`, counted.
spec fn column_spring_count(spring_method: u8, i: int, rows: int, subdivision_x: int, subdivision_y: int) -> int {
    let capped = if rows <= subdivision_y { rows } else { subdivision_y };
    let above = if rows >= 1 { rows - 1 } else { 0 };
    (if has_axis_springs(spring_method) {
        (if i < subdivision_x { rows } else { 0 }) + capped
    } else {
        0
    }) + (if has_diagonal_springs(spring_method) && i < subdivision_x {
        capped + above
    } else {
        0
    })
}

/// Springs started in the first `columns` columns, counted.
spec fn partial_spring_count(spring_method: u8, columns: int, subdivision_x: int, subdivision_y: int) -> int {
    let capped = if columns <= subdivision_x { columns } else { subdivision_x };
    (if has_axis_springs(spring_method) {
        capped * (subdivision_y + 1) + columns * subdivision_y
    } else {
        0
    }) + (if has_diagonal_springs(spring_method) {
        2 * (capped * subdivision_y)
    } else {
        0
    })
}

proof fn lemma_cell_springs(spring_method: u8, i: int, j: int, subdivision_x: int, subdivision_y: int)
    requires
        0 <= i <= subdivision_x,
        0 <= j <= subdivision_y,
        ball_count(subdivision_x, subdivision_y) <= usize::MAX,
    ensures
        all_fit(
            cell_springs(spring_method, i, j, subdivision_x, subdivision_y),
            spring_method,
            subdivision_x,
            subdivision_y,
        ),
        cell_springs(spring_method, i, j, subdivision_x, subdivision_y).len() == column_spring_count(
            spring_method,
            i,
            j + 1,
            subdivision_x,
            subdivision_y,
        ) - column_spring_count(spring_method, i, j, subdivision_x, subdivision_y),
{
    let here = ball_index(i, j, subdivision_y);
    lemma_ball_index_in_range(i, j, subdivision_x, subdivision_y);
    assert(ball_index(i + 1, j, subdivision_y) == here + subdivision_y + 1) by (nonlinear_arith)
        requires
            here == i * (subdivision_y + 1) + j,
    ;
    if i < subdivision_x {
        lemma_ball_index_in_range(i + 1, j, subdivision_x, subdivision_y);
        if j < subdivision_y {
            lemma_ball_index_in_range(i + 1, j + 1, subdivision_x, subdivision_y);
        }
        if j > 0 {
            lemma_ball_index_in_range(i + 1, j - 1, subdivision_x, subdivision_y);
        }
    }
    if j < subdivision_y {
        lemma_ball_index_in_range(i, j + 1, subdivision_x, subdivision_y);
    }
    let springs = cell_springs(spring_method, i, j, subdivision_x, subdivision_y);
    assert forall|s: int| 0 <= s < springs.len() implies spring_fits(
        #[trigger] springs[s],
        spring_method,
        subdivision_x,
        subdivision_y,
    ) by {
        let spring = springs[s];
        assert(spring == link(i, j, i + 1, j, Span::AlongX, subdivision_y) && has_axis_springs(
            spring_method,
        ) && i < subdivision_x || spring == link(i, j, i, j + 1, Span::AlongY, subdivision_y)
            && has_axis_springs(spring_method) && j < subdivision_y || spring == link(
            i,
            j,
            i + 1,
            j + 1,
            Span::Diagonal,
            subdivision_y,
        ) && has_diagonal_springs(spring_method) && i < subdivision_x && j < subdivision_y || spring
            == link(i, j, i + 1, j - 1, Span::Diagonal, subdivision_y) && has_diagonal_springs(
            spring_method,
        ) && i < subdivision_x && j > 0);
    }
}

proof fn lemma_column_springs(spring_method: u8, i: int, rows: nat, subdivision_x: int, subdivision_y: int)
    requires
        0 <= i <= subdivision_x,
        0 <= subdivision_y,
        rows <= subdivision_y + 1,
        ball_count(subdivision_x, subdivision_y) <= usize::MAX,
    ensures
        all_fit(
            column_springs(spring_method, i, rows, subdivision_x, subdivision_y),
            spring_method,
            subdivision_x,
            subdivision_y,
        ),
        column_springs(spring_method, i, rows, subdivision_x, subdivision_y).len() == column_spring_count(
            spring_method,
            i,
            rows as int,
            subdivision_x,
            subdivision_y,
        ),
    decreases rows,
{
    if rows > 0 {
        lemma_column_springs(spring_method, i, (rows - 1) as nat, subdivision_x, subdivision_y);
        lemma_cell_springs(spring_method, i, rows - 1, subdivision_x, subdivision_y);
        let earlier = column_springs(spring_method, i, (rows - 1) as nat, subdivision_x, subdivision_y);
        let last = cell_springs(spring_method, i, rows - 1, subdivision_x, subdivision_y);
        assert(column_springs(spring_method, i, rows, subdivision_x, subdivision_y) == earlier + last);
        assert((earlier + last).len() == earlier.len() + last.len());
    }
}

proof fn lemma_grid_springs(spring_method: u8, columns: nat, subdivision_x: int, subdivision_y: int)
    requires
        0 <= subdivision_x,
        columns <= subdivision_x + 1,
        0 <= subdivision_y,
        ball_count(subdivision_x, subdivision_y) <= usize::MAX,
    ensures
        all_fit(
            grid_springs(spring_method, columns, subdivision_x, subdivision_y),
            spring_method,
            subdivision_x,
            subdivision_y,
        ),
        grid_springs(spring_method, columns, subdivision_x, subdivision_y).len() == partial_spring_count(
            spring_method,
            columns as int,
            subdivision_x,
            subdivision_y,
        ),
    decreases columns,
{
    if columns > 0 {
        let i = columns - 1;
        lemma_grid_springs(spring_method, i as nat, subdivision_x, subdivision_y);
        lemma_column_springs(spring_method, i, (subdivision_y + 1) as nat, subdivision_x, subdivision_y);
        let earlier = grid_springs(spring_method, i as nat, subdivision_x, subdivision_y);
        let last = column_springs(
            spring_method,
            i,
            (subdivision_y + 1) as nat,
            subdivision_x,
            subdivision_y,
        );
        assert(grid_springs(spring_method, columns, subdivision_x, subdivision_y) == earlier + last);
        assert((earlier + last).len() == earlier.len() + last.len());
        let c = columns as int;
        assert(c * (subdivision_y + 1) == i * (subdivision_y + 1) + subdivision_y + 1 && c
            * subdivision_y == i * subdivision_y + subdivision_y) by (nonlinear_arith)
            requires
                c == i + 1,
        ;
    } else {
        let c = columns as int;
        assert(c * (subdivision_y + 1) == 0 && c * subdivision_y == 0) by (nonlinear_arith)
            requires
                c == 0,
        ;
    }
}

/// A mesh with `subdivision_x` by `subdivision_y` subdivisions has
/// `subdivision_x * (subdivision_y + 1) + subdivision_y * (subdivision_x + 1)`
/// axis-aligned springs where the selector asks for them, and two
/// diagonal springs for each of its `subdivision_x * subdivision_y`
/// squares where it asks for those.
pub proof fn lemma_spring_count(spring_method: u8, subdivision_x: int, subdivision_y: int)
    requires
        0 <= subdivision_x,
        0 <= subdivision_y,
        ball_count(subdivision_x, subdivision_y) <= usize::MAX,
    ensures
        mesh_springs(spring_method, subdivision_x, subdivision_y).len() == spring_count(
            spring_method,
            subdivision_x,
            subdivision_y,
        ),
{
    lemma_grid_springs(spring_method, (subdivision_x + 1) as nat, subdivision_x, subdivision_y);
    assert(subdivision_y * (subdivision_x + 1) == (subdivision_x + 1) * subdivision_y)
        by (nonlinear_arith);
}

/// Every spring of a mesh runs from a lower ball index to a higher one,
/// both below the number of balls, in a direction that the selector asks
/// for: no diagonal in the grid pattern, nothing but diagonals in the
/// cross pattern.
pub proof fn lemma_springs_in_range(spring_method: u8, subdivision_x: int, subdivision_y: int)
    requires
        0 <= subdivision_x,
        0 <= subdivision_y,
        ball_count(subdivision_x, subdivision_y) <= usize::MAX,
    ensures
        all_fit(
            mesh_springs(spring_method, subdivision_x, subdivision_y),
            spring_method,
            subdivision_x,
            subdivision_y,
        ),
{
    lemma_grid_springs(spring_method, (subdivision_x + 1) as nat, subdivision_x, subdivision_y);
}

/// The spring is one of those that start at cell `(i, j)`.
pub open spec fn starts_at(
    spring: Spring,
    spring_method: u8,
    i: int,
    j: int,
    subdivision_x: int,
    subdivision_y: int,
) -> bool {
    cell_springs(spring_method, i, j, subdivision_x, subdivision_y).contains(spring)
}

proof fn lemma_column_members(
    spring: Spring,
    spring_method: u8,
    i: int,
    rows: nat,
    subdivision_x: int,
    subdivision_y: int,
)
    ensures
        column_springs(spring_method, i, rows, subdivision_x, subdivision_y).contains(spring) <==> exists|
            j: int,
        |
            0 <= j < rows && #[trigger] starts_at(
                spring,
                spring_method,
                i,
                j,
                subdivision_x,
                subdivision_y,
            ),
    decreases rows,
{
    if rows > 0 {
        lemma_column_members(spring, spring_method, i, (rows - 1) as nat, subdivision_x, subdivision_y);
        lemma_seq_concat_contains_all_elements(
            column_springs(spring_method, i, (rows - 1) as nat, subdivision_x, subdivision_y),
            cell_springs(spring_method, i, rows - 1, subdivision_x, subdivision_y),
            spring,
        );
        if starts_at(spring, spring_method, i, rows - 1, subdivision_x, subdivision_y) {
        }
    }
}

proof fn lemma_grid_members(
    spring: Spring,
    spring_method: u8,
    columns: nat,
    subdivision_x: int,
    subdivision_y: int,
)
    requires
        0 <= subdivision_y,
    ensures
        grid_springs(spring_method, columns, subdivision_x, subdivision_y).contains(spring) <==> exists|
            i: int,
            j: int,
        |
            0 <= i < columns && 0 <= j <= subdivision_y && #[trigger] starts_at(
                spring,
                spring_method,
                i,
                j,
                subdivision_x,
                subdivision_y,
            ),
    decreases columns,
{
    if columns > 0 {
        let i = columns - 1;
        let rows = (subdivision_y + 1) as nat;
        lemma_grid_members(spring, spring_method, i as nat, subdivision_x, subdivision_y);
        lemma_column_members(spring, spring_method, i, rows, subdivision_x, subdivision_y);
        lemma_seq_concat_contains_all_elements(
            grid_springs(spring_method, i as nat, subdivision_x, subdivision_y),
            column_springs(spring_method, i, rows, subdivision_x, subdivision_y),
            spring,
        );
        if column_springs(spring_method, i, rows, subdivision_x, subdivision_y).contains(spring) {
            let j = choose|j: int|
                0 <= j < rows && #[trigger] starts_at(
                    spring,
                    spring_method,
                    i,
                    j,
                    subdivision_x,
                    subdivision_y,
                );
            assert(0 <= i < columns && 0 <= j <= subdivision_y && starts_at(
                spring,
                spring_method,
                i,
                j,
                subdivision_x,
                subdivision_y,
            ));
        }
    }
}

/// A spring belongs to a mesh exactly if it starts at one of the mesh's
/// cells: the mesh has the springs of its cells and no others.
pub proof fn lemma_springs_by_cell(
    spring: Spring,
    spring_method: u8,
    subdivision_x: int,
    subdivision_y: int,
)
    requires
        0 <= subdivision_x,
        0 <= subdivision_y,
    ensures
        mesh_springs(spring_method, subdivision_x, subdivision_y).contains(spring) <==> exists|
            i: int,
            j: int,
        |
            0 <= i <= subdivision_x && 0 <= j <= subdivision_y && #[trigger] starts_at(
                spring,
                spring_method,
                i,
                j,
                subdivision_x,
                subdivision_y,
            ),
{
    lemma_grid_members(spring, spring_method, (subdivision_x + 1) as nat, subdivision_x, subdivision_y);
}

} // verus!
