//! Combinatorics of one cube-sphere face: the plane axes of each cube face, the
//! row-major order of grid points, and the triangle index buffer.
use vstd::prelude::*;
use vstd::arithmetic::div_mod::lemma_fundamental_div_mod_converse;

verus! {

/// Why a face cannot be generated.
#[derive(Clone, Copy, Debug, PartialEq, Eq, Structural)]
pub enum FaceError {
    /// Fewer than two grid points per side: the grid spacing `1 / (resolution - 1)`
    /// is undefined.
    ResolutionTooSmall,
    /// The face set does not name each of the six cube faces exactly once.
    IncompleteFaceSet,
}

/// An integer 3-vector; the cube faces' normals and plane axes are such
/// vectors, with components in `{-1, 0, 1}`.
#[derive(Clone, Copy, Debug, PartialEq, Eq, Structural)]
pub struct IVec3 {
    pub x: i32,
    pub y: i32,
    pub z: i32,
}

/// One of the six faces of the unit cube, named by its outward normal.
#[derive(Clone, Copy, Debug, PartialEq, Eq, Structural)]
pub enum CubeFace {
    PosX,
    NegX,
    PosY,
    NegY,
    PosZ,
    NegZ,
}

pub open spec fn ivec(x: int, y: int, z: int) -> IVec3 {
    IVec3 { x: x as i32, y: y as i32, z: z as i32 }
}

/// Outward unit normal of a cube face.
pub open spec fn face_normal(f: CubeFace) -> IVec3 {
    match f {
        CubeFace::PosX => IVec3 { x: 1, y: 0, z: 0 },
        CubeFace::NegX => IVec3 { x: -1i32, y: 0, z: 0 },
        CubeFace::PosY => IVec3 { x: 0, y: 1, z: 0 },
        CubeFace::NegY => IVec3 { x: 0, y: -1i32, z: 0 },
        CubeFace::PosZ => IVec3 { x: 0, y: 0, z: 1 },
        CubeFace::NegZ => IVec3 { x: 0, y: 0, z: -1i32 },
    }
}

pub open spec fn cross(a: IVec3, b: IVec3) -> IVec3 {
    ivec(a.y * b.z - a.z * b.y, a.z * b.x - a.x * b.z, a.x * b.y - a.y * b.x)
}

pub open spec fn dot(a: IVec3, b: IVec3) -> int {
    a.x * b.x + a.y * b.y + a.z * b.z
}

/// First plane axis of the face with normal `n`: its components rotated.
pub open spec fn axis_a(n: IVec3) -> IVec3 {
    IVec3 { x: n.y, y: n.z, z: n.x }
}

/// Second plane axis of the face with normal `n`: `axis_a(n) x n`.
pub open spec fn axis_b(n: IVec3) -> IVec3 {
    cross(axis_a(n), n)
}

pub open spec fn is_unit_axis(v: IVec3) -> bool {
    -1 <= v.x <= 1 && -1 <= v.y <= 1 && -1 <= v.z <= 1
}

fn cross_of_units(a: IVec3, b: IVec3) -> (r: IVec3)
    requires
        is_unit_axis(a),
        is_unit_axis(b),
    ensures
        r == cross(a, b),
{
    proof {
        assert(-1 <= a.y * b.z <= 1 && -1 <= a.z * b.y <= 1) by (nonlinear_arith)
            requires is_unit_axis(a), is_unit_axis(b);
        assert(-1 <= a.z * b.x <= 1 && -1 <= a.x * b.z <= 1) by (nonlinear_arith)
            requires is_unit_axis(a), is_unit_axis(b);
        assert(-1 <= a.x * b.y <= 1 && -1 <= a.y * b.x <= 1) by (nonlinear_arith)
            requires is_unit_axis(a), is_unit_axis(b);
    }
    IVec3 { x: a.y * b.z - a.z * b.y, y: a.z * b.x - a.x * b.z, z: a.x * b.y - a.y * b.x }
}

impl CubeFace {
    /// Outward unit normal of this face.
    pub fn normal(&self) -> (r: IVec3)
        ensures
            r == face_normal(*self),
    {
        match self {
            CubeFace::PosX => IVec3 { x: 1, y: 0, z: 0 },
            CubeFace::NegX => IVec3 { x: -1i32, y: 0, z: 0 },
            CubeFace::PosY => IVec3 { x: 0, y: 1, z: 0 },
            CubeFace::NegY => IVec3 { x: 0, y: -1, z: 0 },
            CubeFace::PosZ => IVec3 { x: 0, y: 0, z: 1 },
            CubeFace::NegZ => IVec3 { x: 0, y: 0, z: -1 },
        }
    }

    /// The two axes spanning this face's plane: `a` is the normal with its
    /// components rotated, `(n.y, n.z, n.x)`, and `b = a x n`. A grid point at
    /// fractions `(px, py)` lies at `n + (px - x_offset) a + (py - y_offset) b`.
    pub fn axes(&self) -> (r: (IVec3, IVec3))
        ensures
            r.0 == axis_a(face_normal(*self)),
            r.1 == axis_b(face_normal(*self)),
    {
        let n = self.normal();
        let a = IVec3 { x: n.y, y: n.z, z: n.x };
        let b = cross_of_units(a, n);
        (a, b)
    }
}

/// Each face's normal and its two plane axes are mutually orthogonal unit
/// vectors, so the grid of every face covers a full square of the cube.
#[verifier::spinoff_prover]
pub proof fn lemma_face_axes_orthonormal(f: CubeFace)
    ensures
        dot(face_normal(f), face_normal(f)) == 1,
        dot(axis_a(face_normal(f)), axis_a(face_normal(f))) == 1,
        dot(axis_b(face_normal(f)), axis_b(face_normal(f))) == 1,
        dot(face_normal(f), axis_a(face_normal(f))) == 0,
        dot(face_normal(f), axis_b(face_normal(f))) == 0,
        dot(axis_a(face_normal(f)), axis_b(face_normal(f))) == 0,
{
    let n = face_normal(f);
    let a = axis_a(n);
    let b = axis_b(n);
    match f {
        CubeFace::PosX => {
            assert(n.x == 1 && n.y == 0 && n.z == 0);
            assert(a.x == 0 && a.y == 0 && a.z == 1);
            assert(a.y * n.z - a.z * n.y == 0 && a.z * n.x - a.x * n.z == 1 && a.x * n.y - a.y * n.x == 0)
                by (nonlinear_arith)
                requires
                    n.x == 1 && n.y == 0 && n.z == 0,
                    a.x == 0 && a.y == 0 && a.z == 1,
            ;
            assert(b.x == 0 && b.y == 1 && b.z == 0);
            assert(dot(n, n) == 1 && dot(a, a) == 1 && dot(b, b) == 1 && dot(n, a) == 0 && dot(n, b) == 0 && dot(a, b) == 0)
                by (nonlinear_arith)
                requires
                    n.x == 1 && n.y == 0 && n.z == 0,
                    a.x == 0 && a.y == 0 && a.z == 1,
                    b.x == 0 && b.y == 1 && b.z == 0,
            ;
        },
        CubeFace::NegX => {
            assert(n.x == -1 && n.y == 0 && n.z == 0);
            assert(a.x == 0 && a.y == 0 && a.z == -1);
            assert(a.y * n.z - a.z * n.y == 0 && a.z * n.x - a.x * n.z == 1 && a.x * n.y - a.y * n.x == 0)
                by (nonlinear_arith)
                requires
                    n.x == -1 && n.y == 0 && n.z == 0,
                    a.x == 0 && a.y == 0 && a.z == -1,
            ;
            assert(b.x == 0 && b.y == 1 && b.z == 0);
            assert(dot(n, n) == 1 && dot(a, a) == 1 && dot(b, b) == 1 && dot(n, a) == 0 && dot(n, b) == 0 && dot(a, b) == 0)
                by (nonlinear_arith)
                requires
                    n.x == -1 && n.y == 0 && n.z == 0,
                    a.x == 0 && a.y == 0 && a.z == -1,
                    b.x == 0 && b.y == 1 && b.z == 0,
            ;
        },
        CubeFace::PosY => {
            assert(n.x == 0 && n.y == 1 && n.z == 0);
            assert(a.x == 1 && a.y == 0 && a.z == 0);
            assert(a.y * n.z - a.z * n.y == 0 && a.z * n.x - a.x * n.z == 0 && a.x * n.y - a.y * n.x == 1)
                by (nonlinear_arith)
                requires
                    n.x == 0 && n.y == 1 && n.z == 0,
                    a.x == 1 && a.y == 0 && a.z == 0,
            ;
            assert(b.x == 0 && b.y == 0 && b.z == 1);
            assert(dot(n, n) == 1 && dot(a, a) == 1 && dot(b, b) == 1 && dot(n, a) == 0 && dot(n, b) == 0 && dot(a, b) == 0)
                by (nonlinear_arith)
                requires
                    n.x == 0 && n.y == 1 && n.z == 0,
                    a.x == 1 && a.y == 0 && a.z == 0,
                    b.x == 0 && b.y == 0 && b.z == 1,
            ;
        },
        CubeFace::NegY => {
            assert(n.x == 0 && n.y == -1 && n.z == 0);
            assert(a.x == -1 && a.y == 0 && a.z == 0);
            assert(a.y * n.z - a.z * n.y == 0 && a.z * n.x - a.x * n.z == 0 && a.x * n.y - a.y * n.x == 1)
                by (nonlinear_arith)
                requires
                    n.x == 0 && n.y == -1 && n.z == 0,
                    a.x == -1 && a.y == 0 && a.z == 0,
            ;
            assert(b.x == 0 && b.y == 0 && b.z == 1);
            assert(dot(n, n) == 1 && dot(a, a) == 1 && dot(b, b) == 1 && dot(n, a) == 0 && dot(n, b) == 0 && dot(a, b) == 0)
                by (nonlinear_arith)
                requires
                    n.x == 0 && n.y == -1 && n.z == 0,
                    a.x == -1 && a.y == 0 && a.z == 0,
                    b.x == 0 && b.y == 0 && b.z == 1,
            ;
        },
        CubeFace::PosZ => {
            assert(n.x == 0 && n.y == 0 && n.z == 1);
            assert(a.x == 0 && a.y == 1 && a.z == 0);
            assert(a.y * n.z - a.z * n.y == 1 && a.z * n.x - a.x * n.z == 0 && a.x * n.y - a.y * n.x == 0)
                by (nonlinear_arith)
                requires
                    n.x == 0 && n.y == 0 && n.z == 1,
                    a.x == 0 && a.y == 1 && a.z == 0,
            ;
            assert(b.x == 1 && b.y == 0 && b.z == 0);
            assert(dot(n, n) == 1 && dot(a, a) == 1 && dot(b, b) == 1 && dot(n, a) == 0 && dot(n, b) == 0 && dot(a, b) == 0)
                by (nonlinear_arith)
                requires
                    n.x == 0 && n.y == 0 && n.z == 1,
                    a.x == 0 && a.y == 1 && a.z == 0,
                    b.x == 1 && b.y == 0 && b.z == 0,
            ;
        },
        CubeFace::NegZ => {
            assert(n.x == 0 && n.y == 0 && n.z == -1);
            assert(a.x == 0 && a.y == -1 && a.z == 0);
            assert(a.y * n.z - a.z * n.y == 1 && a.z * n.x - a.x * n.z == 0 && a.x * n.y - a.y * n.x == 0)
                by (nonlinear_arith)
                requires
                    n.x == 0 && n.y == 0 && n.z == -1,
                    a.x == 0 && a.y == -1 && a.z == 0,
            ;
            assert(b.x == 1 && b.y == 0 && b.z == 0);
            assert(dot(n, n) == 1 && dot(a, a) == 1 && dot(b, b) == 1 && dot(n, a) == 0 && dot(n, b) == 0 && dot(a, b) == 0)
                by (nonlinear_arith)
                requires
                    n.x == 0 && n.y == 0 && n.z == -1,
                    a.x == 0 && a.y == -1 && a.z == 0,
                    b.x == 1 && b.y == 0 && b.z == 0,
            ;
        },
    }
}

/// The faces are six, pairwise different: each cube face appears once.
pub open spec fn is_complete_face_set(faces: Seq<CubeFace>) -> bool {
    &&& faces.len() == 6
    &&& forall|i: int, j: int| 0 <= i < j < 6 ==> faces[i] != faces[j]
}

/// Checks that a set of face descriptors covers the cube: six faces, no face
/// twice.
pub fn check_face_set(faces: &Vec<CubeFace>) -> (r: Result<(), FaceError>)
    ensures
        is_complete_face_set(faces@) <==> r == Ok::<(), FaceError>(()),
        !is_complete_face_set(faces@) <==> r == Err::<(), FaceError>(FaceError::IncompleteFaceSet),
{
    if faces.len() != 6 {
        return Err(FaceError::IncompleteFaceSet);
    }
    let mut j: usize = 1;
    while j < 6
        invariant
            faces@.len() == 6,
            1 <= j <= 6,
            forall|a: int, b: int| 0 <= a < b < j ==> faces@[a] != faces@[b],
        decreases 6 - j,
    {
        let mut i: usize = 0;
        while i < j
            invariant
                faces@.len() == 6,
                1 <= j < 6,
                i <= j,
                forall|a: int, b: int| 0 <= a < b < j ==> faces@[a] != faces@[b],
                forall|a: int| 0 <= a < i ==> faces@[a] != faces@[j as int],
            decreases j - i,
        {
            if faces[i] == faces[j] {
                return Err(FaceError::IncompleteFaceSet);
            }
            i = i + 1;
        }
        j = j + 1;
    }
    Ok(())
}

/// Largest resolution whose vertex indices all fit in a `u32`.
pub const MAX_RESOLUTION: u32 = 65536;

/// Index of the `j`-th entry (`0 <= j < 6`) written for grid cell `c` of a face
/// with `n` points per side. Cells are numbered row-major; the cell's lower-left
/// vertex is `i = x + y * n`, and its two triangles are `(i, i+n, i+n+1)` and
/// `(i, i+n+1, i+1)`.
pub open spec fn cell_corner(n: int, c: int, j: int) -> int {
    let i = c % (n - 1) + (c / (n - 1)) * n;
    if j == 0 || j == 3 {
        i
    } else if j == 1 {
        i + n
    } else if j == 2 || j == 4 {
        i + n + 1
    } else {
        i + 1
    }
}

/// The index buffer of a face with `n` points per side: six entries per cell.
pub open spec fn is_face_index_buffer(n: int, v: Seq<u32>) -> bool {
    &&& v.len() == 6 * (n - 1) * (n - 1)
    &&& forall|k: int| 0 <= k < v.len() ==> v[k] as int == #[trigger] cell_corner(n, k / 6, k % 6)
}

/// The grid points of a face with `n` points per side, x fastest.
pub open spec fn is_face_grid(n: int, g: Seq<(u32, u32)>) -> bool {
    &&& g.len() == n * n
    &&& forall|k: int| 0 <= k < g.len() ==> #[trigger] g[k] == ((k % n) as u32, (k / n) as u32)
}

/// Triangle `t` of an index buffer names three different vertices.
pub open spec fn triangle_has_distinct_corners(v: Seq<u32>, t: int) -> bool {
    &&& v[3 * t] != v[3 * t + 1]
    &&& v[3 * t + 1] != v[3 * t + 2]
    &&& v[3 * t] != v[3 * t + 2]
}

proof fn lemma_div_mod_of(k: int, d: int, q: int, r: int)
    requires
        0 < d,
        0 <= r < d,
        k == q * d + r,
    ensures
        k / d == q,
        k % d == r,
{
    lemma_fundamental_div_mod_converse(k, d, q, r);
}

/// Appends the six indices of the cell at column `x`, row `y`.
fn push_cell(v: &mut Vec<u32>, n: u32, x: u32, y: u32)
    requires
        2 <= n <= MAX_RESOLUTION,
        x < n - 1,
        y < n - 1,
        old(v)@.len() == 6 * (y * (n - 1) + x),
    ensures
        final(v)@.len() == old(v)@.len() + 6,
        forall|k: int| 0 <= k < old(v)@.len() ==> final(v)@[k] == old(v)@[k],
        forall|k: int|
            old(v)@.len() <= k < final(v)@.len() ==> final(v)@[k] as int == #[trigger] cell_corner(
                n as int,
                k / 6,
                k % 6,
            ),
{
    let ghost c: int = y * (n - 1) + x;
    proof {
        lemma_div_mod_of(c, n - 1, y as int, x as int);
        assert((y as int) * (n as int) + n + x + 1 <= (n as int) * (n as int) - 1) by (nonlinear_arith)
            requires
                x + 2 <= n,
                y + 2 <= n,
        ;
        assert((n as int) * (n as int) <= 65536 * 65536) by (nonlinear_arith)
            requires
                n <= 65536,
                0 <= n,
        ;
    }
    let i: u32 = x + y * n;
    let ghost start = v@.len();
    v.push(i);
    v.push(i + n);
    v.push(i + n + 1);
    v.push(i);
    v.push(i + n + 1);
    v.push(i + 1);
    proof {
        assert forall|k: int| start <= k < v@.len() implies v@[k] as int == #[trigger] cell_corner(
            n as int,
            k / 6,
            k % 6,
        ) by {
            lemma_div_mod_of(k, 6, c, k - start);
        }
    }
}

/// Triangle index buffer of a face with `resolution` points per side: for each
/// cell not on the last row or column, two triangles of consistent winding.
pub fn face_indices(resolution: u32) -> (r: Result<Vec<u32>, FaceError>)
    requires
        resolution <= MAX_RESOLUTION,
    ensures
        resolution < 2 ==> r == Err::<Vec<u32>, FaceError>(FaceError::ResolutionTooSmall),
        resolution >= 2 <==> r is Ok,
        r matches Ok(v) ==> is_face_index_buffer(resolution as int, v@),
{
    if resolution < 2 {
        return Err(FaceError::ResolutionTooSmall);
    }
    let n = resolution;
    let mut v: Vec<u32> = Vec::new();
    let mut y: u32 = 0;
    while y < n - 1
        invariant
            2 <= n <= MAX_RESOLUTION,
            y <= n - 1,
            v@.len() == 6 * (y * (n - 1)),
            forall|k: int| 0 <= k < v@.len() ==> v@[k] as int == #[trigger] cell_corner(n as int, k / 6, k % 6),
        decreases n - 1 - y,
    {
        let mut x: u32 = 0;
        while x < n - 1
            invariant
                2 <= n <= MAX_RESOLUTION,
                y < n - 1,
                x <= n - 1,
                v@.len() == 6 * (y * (n - 1) + x),
                forall|k: int| 0 <= k < v@.len() ==> v@[k] as int == #[trigger] cell_corner(n as int, k / 6, k % 6),
            decreases n - 1 - x,
        {
            push_cell(&mut v, n, x, y);
            x = x + 1;
        }
        proof {
            assert(6 * (y * (n - 1) + (n - 1)) == 6 * ((y + 1) * (n - 1))) by (nonlinear_arith);
        }
        y = y + 1;
    }
    proof {
        assert(6 * ((n - 1) * (n - 1)) == 6 * (n - 1) * (n - 1)) by (nonlinear_arith);
    }
    Ok(v)
}

/// Grid points `(x, y)` of a face with `resolution` points per side, row-major
/// with `x` fastest: the order in which the face's vertices, normals and UVs
/// are laid out.
pub fn face_grid(resolution: u32) -> (r: Result<Vec<(u32, u32)>, FaceError>)
    requires
        resolution <= MAX_RESOLUTION,
    ensures
        resolution < 2 ==> r == Err::<Vec<(u32, u32)>, FaceError>(FaceError::ResolutionTooSmall),
        resolution >= 2 <==> r is Ok,
        r matches Ok(g) ==> is_face_grid(resolution as int, g@),
{
    if resolution < 2 {
        return Err(FaceError::ResolutionTooSmall);
    }
    let n = resolution;
    let mut g: Vec<(u32, u32)> = Vec::new();
    let mut y: u32 = 0;
    while y < n
        invariant
            2 <= n <= MAX_RESOLUTION,
            y <= n,
            g@.len() == y * n,
            forall|k: int| 0 <= k < g@.len() ==> #[trigger] g@[k] == ((k % n as int) as u32, (k / n as int) as u32),
        decreases n - y,
    {
        let mut x: u32 = 0;
        while x < n
            invariant
                2 <= n <= MAX_RESOLUTION,
                y < n,
                x <= n,
                g@.len() == y * n + x,
                forall|k: int| 0 <= k < g@.len() ==> #[trigger] g@[k] == ((k % n as int) as u32, (k / n as int) as u32),
            decreases n - x,
        {
            proof {
                lemma_div_mod_of(y * n + x, n as int, y as int, x as int);
            }
            g.push((x, y));
            x = x + 1;
        }
        proof {
            assert(y * n + n == (y + 1) * n) by (nonlinear_arith);
        }
        y = y + 1;
    }
    Ok(g)
}

/// Every index of a face's buffer names one of its `n * n` vertices, and no
/// triangle repeats a vertex.
pub proof fn lemma_face_indices_well_formed(n: int, v: Seq<u32>)
    requires
        2 <= n,
        is_face_index_buffer(n, v),
    ensures
        forall|k: int| 0 <= k < v.len() ==> 0 <= #[trigger] v[k] < n * n,
        forall|t: int|
            0 <= t < v.len() / 3 ==> #[trigger] triangle_has_distinct_corners(v, t),
{
    assert forall|k: int| 0 <= k < v.len() implies 0 <= #[trigger] v[k] < n * n by {
        assert(0 <= k / 6 < (n - 1) * (n - 1)) by {
            let m = (n - 1) * (n - 1);
            vstd::arithmetic::div_mod::lemma_fundamental_div_mod(k, 6);
            assert(6 * (n - 1) * (n - 1) == 6 * m) by (nonlinear_arith)
                requires
                    m == (n - 1) * (n - 1),
            ;
        }
        lemma_cell_corner_in_range(n, k / 6, k % 6);
    }
    assert forall|t: int| 0 <= t < v.len() / 3 implies #[trigger] triangle_has_distinct_corners(v, t) by {
        let c = t / 2;
        let b = 3 * (t % 2);
        lemma_div_mod_of(t, 2, c, t % 2);
        lemma_div_mod_of(3 * t, 6, c, b);
        lemma_div_mod_of(3 * t + 1, 6, c, b + 1);
        lemma_div_mod_of(3 * t + 2, 6, c, b + 2);
        assert(3 * t + 2 < v.len()) by {
            vstd::arithmetic::div_mod::lemma_fundamental_div_mod(v.len() as int, 3);
        }
        assert(v[3 * t] as int == cell_corner(n, (3 * t) / 6, (3 * t) % 6));
        assert(v[3 * t + 1] as int == cell_corner(n, (3 * t + 1) / 6, (3 * t + 1) % 6));
        assert(v[3 * t + 2] as int == cell_corner(n, (3 * t + 2) / 6, (3 * t + 2) % 6));
    }
}

proof fn lemma_cell_corner_in_range(n: int, c: int, j: int)
    requires
        2 <= n,
        0 <= c < (n - 1) * (n - 1),
        0 <= j < 6,
    ensures
        0 <= cell_corner(n, c, j) < n * n,
{
    let x = c % (n - 1);
    let y = c / (n - 1);
    vstd::arithmetic::div_mod::lemma_fundamental_div_mod(c, n - 1);
    assert(y < n - 1) by {
        vstd::arithmetic::div_mod::lemma_div_by_multiple_is_strongly_ordered(c, (n - 1) * (n - 1), n - 1, n - 1);
        vstd::arithmetic::div_mod::lemma_div_multiples_vanish(n - 1, n - 1);
    }
    assert(0 <= y) by {
        vstd::arithmetic::div_mod::lemma_div_pos_is_pos(c, n - 1);
    }
    assert(0 <= x + y * n && x + y * n + n + 1 < n * n) by (nonlinear_arith)
        requires
            0 <= x < n - 1,
            0 <= y < n - 1,
    ;
}

} // verus!
