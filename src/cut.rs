use vstd::prelude::*;

verus! {

/// `(b - a) x (p - a)`: zero exactly when `p` lies on the line through `a` and `b`.
pub open spec fn cross(a: (i32, i32), b: (i32, i32), p: (i32, i32)) -> int {
    (b.0 - a.0) * (p.1 - a.1) - (b.1 - a.1) * (p.0 - a.0)
}

pub open spec fn min(a: int, b: int) -> int {
    if a <= b {
        a
    } else {
        b
    }
}

pub open spec fn max(a: int, b: int) -> int {
    if a >= b {
        a
    } else {
        b
    }
}

/// `p` lies on the closed segment from `a` to `b`.
pub open spec fn on_segment(a: (i32, i32), b: (i32, i32), p: (i32, i32)) -> bool {
    &&& cross(a, b, p) == 0
    &&& min(a.0 as int, b.0 as int) <= p.0 <= max(a.0 as int, b.0 as int)
    &&& min(a.1 as int, b.1 as int) <= p.1 <= max(a.1 as int, b.1 as int)
}

/// The ray from `p` towards increasing x crosses the edge from `a` to `b`:
/// the edge straddles the line `y = p.1` (one end above it, the other not),
/// and meets that line to the right of `p`.
pub open spec fn ray_crosses(a: (i32, i32), b: (i32, i32), p: (i32, i32)) -> bool {
    let dy = b.1 - a.1;
    &&& (a.1 > p.1) != (b.1 > p.1)
    &&& if dy > 0 {
        (p.0 - a.0) * dy < (b.0 - a.0) * (p.1 - a.1)
    } else {
        (p.0 - a.0) * dy > (b.0 - a.0) * (p.1 - a.1)
    }
}

/// The end of edge `k` of the closed polygon `vs`, which runs from `vs[k]`
/// to the next vertex, and from the last vertex back to the first.
pub open spec fn edge_end(vs: Seq<(i32, i32)>, k: int) -> (i32, i32) {
    if k + 1 < vs.len() {
        vs[k + 1]
    } else {
        vs[0]
    }
}

/// How many of the first `k` edges the ray from `p` crosses.
pub open spec fn crossings(vs: Seq<(i32, i32)>, p: (i32, i32), k: nat) -> nat
    decreases k,
{
    if k == 0 {
        0
    } else {
        let e = (k - 1) as int;
        crossings(vs, p, (k - 1) as nat) + if ray_crosses(vs[e], edge_end(vs, e), p) {
            1nat
        } else {
            0nat
        }
    }
}

/// `p` lies on one of the first `k` edges.
pub open spec fn touches(vs: Seq<(i32, i32)>, p: (i32, i32), k: nat) -> bool
    decreases k,
{
    if k == 0 {
        false
    } else {
        let e = (k - 1) as int;
        touches(vs, p, (k - 1) as nat) || on_segment(vs[e], edge_end(vs, e), p)
    }
}

/// `p` lies strictly inside the polygon: not on its boundary, and the ray
/// from `p` crosses its edges an odd number of times.
pub open spec fn inside(vs: Seq<(i32, i32)>, p: (i32, i32)) -> bool {
    &&& !touches(vs, p, vs.len())
    &&& crossings(vs, p, vs.len()) % 2 == 1
}

proof fn lemma_mul_bounded(x: int, y: int)
    requires
        -4294967296 <= x <= 4294967296,
        -4294967296 <= y <= 4294967296,
    ensures
        -18446744073709551616 <= x * y <= 18446744073709551616,
{
    assert(-18446744073709551616 <= x * y <= 18446744073709551616) by (nonlinear_arith)
        requires
            -4294967296 <= x <= 4294967296,
            -4294967296 <= y <= 4294967296,
    ;
}

fn on_segment_exec(a: (i32, i32), b: (i32, i32), p: (i32, i32)) -> (r: bool)
    ensures
        r == on_segment(a, b, p),
{
    proof {
        lemma_mul_bounded(b.0 - a.0, p.1 - a.1);
        lemma_mul_bounded(b.1 - a.1, p.0 - a.0);
    }
    let c: i128 = (b.0 as i128 - a.0 as i128) * (p.1 as i128 - a.1 as i128) - (b.1 as i128
        - a.1 as i128) * (p.0 as i128 - a.0 as i128);
    let (x_lo, x_hi) = if a.0 <= b.0 {
        (a.0, b.0)
    } else {
        (b.0, a.0)
    };
    let (y_lo, y_hi) = if a.1 <= b.1 {
        (a.1, b.1)
    } else {
        (b.1, a.1)
    };
    c == 0 && x_lo <= p.0 && p.0 <= x_hi && y_lo <= p.1 && p.1 <= y_hi
}

fn ray_crosses_exec(a: (i32, i32), b: (i32, i32), p: (i32, i32)) -> (r: bool)
    ensures
        r == ray_crosses(a, b, p),
{
    if (a.1 > p.1) == (b.1 > p.1) {
        return false;
    }
    proof {
        lemma_mul_bounded(p.0 - a.0, b.1 - a.1);
        lemma_mul_bounded(b.0 - a.0, p.1 - a.1);
    }
    let dy: i128 = b.1 as i128 - a.1 as i128;
    let lhs: i128 = (p.0 as i128 - a.0 as i128) * dy;
    let rhs: i128 = (b.0 as i128 - a.0 as i128) * (p.1 as i128 - a.1 as i128);
    if dy > 0 {
        lhs < rhs
    } else {
        lhs > rhs
    }
}

/// Whether `p` lies strictly inside the closed polygon `vs` (see `inside`).
/// A point on an edge or a vertex is outside.
pub fn point_in_polygon(vs: &Vec<(i32, i32)>, p: (i32, i32)) -> (r: bool)
    requires
        vs@.len() >= 1,
    ensures
        r == inside(vs@, p),
{
    let n = vs.len();
    let mut k: usize = 0;
    let mut odd: bool = false;
    let mut touched: bool = false;
    while k < n
        invariant
            n == vs@.len(),
            n >= 1,
            k <= n,
            odd == (crossings(vs@, p, k as nat) % 2 == 1),
            touched == touches(vs@, p, k as nat),
        decreases n - k,
    {
        let a = vs[k];
        let b = if k + 1 < n {
            vs[k + 1]
        } else {
            vs[0]
        };
        if ray_crosses_exec(a, b, p) {
            odd = !odd;
        }
        if on_segment_exec(a, b, p) {
            touched = true;
        }
        k = k + 1;
    }
    !touched && odd
}

/// The rectangle with corners `(x0, y0)` and `(x1, y1)`, counter-clockwise.
pub open spec fn rectangle(x0: i32, y0: i32, x1: i32, y1: i32) -> Seq<(i32, i32)> {
    seq![(x0, y0), (x1, y0), (x1, y1), (x0, y1)]
}

proof fn lemma_zero_mul(z: int, y: int)
    requires
        z == 0,
    ensures
        z * y == 0,
{
}

proof fn lemma_sign_product(a: int, b: int)
    requires
        a > 0,
    ensures
        (a * b == 0) == (b == 0),
        (a * b < 0) == (b < 0),
        (a * b > 0) == (b > 0),
        ((-a) * b > 0) == (b < 0),
{
    assert((a * b == 0) == (b == 0)) by (nonlinear_arith)
        requires
            a > 0,
    ;
    assert((a * b < 0) == (b < 0)) by (nonlinear_arith)
        requires
            a > 0,
    ;
    assert((a * b > 0) == (b > 0)) by (nonlinear_arith)
        requires
            a > 0,
    ;
    assert(((-a) * b > 0) == (b < 0)) by (nonlinear_arith)
        requires
            a > 0,
    ;
}

/// A rectangular cut keeps exactly the points strictly inside the rectangle:
/// points on its edges and corners are left out.
pub proof fn lemma_rectangle_cut(x0: i32, y0: i32, x1: i32, y1: i32, p: (i32, i32))
    requires
        x0 < x1,
        y0 < y1,
    ensures
        inside(rectangle(x0, y0, x1, y1), p) <==> (x0 < p.0 < x1 && y0 < p.1 < y1),
{
    let vs = rectangle(x0, y0, x1, y1);
    let a = (x0, y0);
    let b = (x1, y0);
    let c = (x1, y1);
    let d = (x0, y1);
    assert(vs[0] == a && vs[1] == b && vs[2] == c && vs[3] == d);
    assert(edge_end(vs, 0) == b && edge_end(vs, 1) == c && edge_end(vs, 2) == d && edge_end(vs, 3) == a);
    let w = x1 - x0;
    let h = y1 - y0;
    // bottom edge
    lemma_sign_product(w, p.1 - y0);
    lemma_zero_mul(b.1 - a.1, p.0 - a.0);
    assert(cross(a, b, p) == w * (p.1 - y0));
    assert(!ray_crosses(a, b, p));
    // right edge
    lemma_sign_product(h, p.0 - x1);
    lemma_zero_mul(c.0 - b.0, p.1 - b.1);
    assert(cross(b, c, p) == -(h * (p.0 - x1)));
    assert(ray_crosses(b, c, p) == (y0 <= p.1 < y1 && p.0 < x1));
    // top edge
    lemma_sign_product(w, p.1 - y1);
    lemma_zero_mul(d.1 - c.1, p.0 - c.0);
    assert((d.0 - c.0) * (p.1 - c.1) == (-w) * (p.1 - y1)) by (nonlinear_arith)
        requires
            w == x1 - x0,
            d.0 == x0,
            c.0 == x1,
            c.1 == y1,
    ;
    assert(cross(c, d, p) == (-w) * (p.1 - y1));
    assert(!ray_crosses(c, d, p));
    // left edge
    lemma_sign_product(h, p.0 - x0);
    lemma_zero_mul(a.0 - d.0, p.1 - d.1);
    assert((a.1 - d.1) * (p.0 - d.0) == -(h * (p.0 - x0))) by (nonlinear_arith)
        requires
            h == y1 - y0,
            a.1 == y0,
            d.1 == y1,
            d.0 == x0,
    ;
    assert(cross(d, a, p) == h * (p.0 - x0));
    assert((p.0 - x0) * (y0 - y1) == (-h) * (p.0 - x0)) by (nonlinear_arith)
        requires
            h == y1 - y0,
    ;
    assert(ray_crosses(d, a, p) == (y0 <= p.1 < y1 && p.0 < x0));
    reveal_with_fuel(crossings, 5);
    reveal_with_fuel(touches, 5);
    assert(touches(vs, p, 4) == (on_segment(a, b, p) || on_segment(b, c, p) || on_segment(c, d, p)
        || on_segment(d, a, p)));
}

/// Why a set of cuts could not be applied.
#[derive(Debug, Clone, Copy, PartialEq, Eq, Structural)]
pub enum CutError {
    /// A cut names a column that the data does not have.
    ColumnNotFound,
}

/// A named polygon over two columns of the data: a row passes when its
/// point `(x_column, y_column)` lies strictly inside the polygon.
#[derive(Debug, Clone)]
pub struct Cut {
    pub name: String,
    pub x_column: String,
    pub y_column: String,
    pub vertices: Vec<(i32, i32)>,
}

/// A cut whose columns have been found in the data: the positions of its
/// two columns within a row.
#[derive(Debug)]
pub struct CutFilter {
    pub vertices: Vec<(i32, i32)>,
    pub x_index: usize,
    pub y_index: usize,
}

/// The position of the first column called `name`, if any.
pub open spec fn spec_column_index(columns: Seq<String>, name: Seq<char>) -> Option<int> {
    if exists|i: int| 0 <= i < columns.len() && #[trigger] columns[i]@ == name {
        Some(
            choose|i: int|
                0 <= i < columns.len() && #[trigger] columns[i]@ == name && forall|j: int|
                    0 <= j < i ==> #[trigger] columns[j]@ != name,
        )
    } else {
        None
    }
}

/// The row passes the filter: it has both columns, and its point lies
/// strictly inside the polygon.
pub open spec fn passes(f: CutFilter, row: Seq<i32>) -> bool {
    &&& f.x_index < row.len()
    &&& f.y_index < row.len()
    &&& inside(f.vertices@, (row[f.x_index as int], row[f.y_index as int]))
}

/// The rows that pass `f`, in their order.
pub open spec fn keep(rows: Seq<Seq<i32>>, f: CutFilter) -> Seq<Seq<i32>> {
    rows.filter(|row: Seq<i32>| passes(f, row))
}

/// The rows left after applying each filter of `fs` in turn.
pub open spec fn keep_all(rows: Seq<Seq<i32>>, fs: Seq<CutFilter>) -> Seq<Seq<i32>>
    decreases fs.len(),
{
    if fs.len() == 0 {
        rows
    } else {
        keep(keep_all(rows, fs.drop_last()), fs.last())
    }
}

pub open spec fn rows_view(rows: Seq<Vec<i32>>) -> Seq<Seq<i32>> {
    rows.map_values(|r: Vec<i32>| r@)
}

/// The position of the first of `columns` called `name`.
pub fn column_index(columns: &Vec<String>, name: &String) -> (r: Option<usize>)
    ensures
        match r {
            Some(i) => i < columns@.len() && columns@[i as int]@ == name@ && forall|j: int|
                0 <= j < i ==> #[trigger] columns@[j]@ != name@,
            None => forall|j: int| 0 <= j < columns@.len() ==> #[trigger] columns@[j]@ != name@,
        },
        r matches Some(i) ==> spec_column_index(columns@, name@) == Some(i as int),
        r is None ==> spec_column_index(columns@, name@) is None,
{
    let mut k: usize = 0;
    while k < columns.len()
        invariant
            k <= columns@.len(),
            forall|j: int| 0 <= j < k ==> #[trigger] columns@[j]@ != name@,
        decreases columns@.len() - k,
    {
        if columns[k] == *name {
            proof {
                let i = choose|i: int|
                    0 <= i < columns@.len() && #[trigger] columns@[i]@ == name@ && forall|j: int|
                        0 <= j < i ==> #[trigger] columns@[j]@ != name@;
                assert(columns@[k as int]@ == name@);
            }
            return Some(k);
        }
        k = k + 1;
    }
    None
}

fn copy_vertices(v: &Vec<(i32, i32)>) -> (r: Vec<(i32, i32)>)
    ensures
        r@ == v@,
{
    let mut out: Vec<(i32, i32)> = Vec::new();
    let mut k: usize = 0;
    while k < v.len()
        invariant
            k <= v@.len(),
            out@ == v@.subrange(0, k as int),
        decreases v@.len() - k,
    {
        out.push(v[k]);
        k = k + 1;
        assert(out@ =~= v@.subrange(0, k as int));
    }
    assert(v@.subrange(0, v@.len() as int) =~= v@);
    out
}

impl Cut {
    /// A polygon needs at least three vertices.
    pub open spec fn well_formed(&self) -> bool {
        self.vertices@.len() >= 3
    }

    /// A cut named `name` over columns `x_column` and `y_column`; `None` with
    /// fewer than three vertices.
    pub fn new(name: String, x_column: String, y_column: String, vertices: Vec<(i32, i32)>) -> (r:
        Option<Cut>)
        ensures
            r is Some <==> vertices@.len() >= 3,
            r matches Some(c) ==> c.well_formed() && c.name@ == name@ && c.x_column@
                == x_column@ && c.y_column@ == y_column@ && c.vertices@ == vertices@,
    {
        if vertices.len() < 3 {
            return None;
        }
        Some(Cut { name, x_column, y_column, vertices })
    }

    /// Whether the point `(x, y)` lies strictly inside the cut's polygon.
    pub fn contains(&self, x: i32, y: i32) -> (r: bool)
        requires
            self.well_formed(),
        ensures
            r == inside(self.vertices@, (x, y)),
    {
        point_in_polygon(&self.vertices, (x, y))
    }

    /// Finds the cut's two columns among `columns`.
    pub fn resolve(&self, columns: &Vec<String>) -> (r: Result<CutFilter, CutError>)
        requires
            self.well_formed(),
        ensures
            r is Err <==> spec_column_index(columns@, self.x_column@) is None
                || spec_column_index(columns@, self.y_column@) is None,
            r matches Err(e) ==> e == CutError::ColumnNotFound,
            r matches Ok(f) ==> {
                &&& f.vertices@ == self.vertices@
                &&& spec_column_index(columns@, self.x_column@) == Some(f.x_index as int)
                &&& spec_column_index(columns@, self.y_column@) == Some(f.y_index as int)
                &&& f.x_index < columns@.len()
                &&& f.y_index < columns@.len()
            },
    {
        let xi = column_index(columns, &self.x_column);
        let yi = column_index(columns, &self.y_column);
        match (xi, yi) {
            (Some(x_index), Some(y_index)) => Ok(
                CutFilter { vertices: copy_vertices(&self.vertices), x_index, y_index },
            ),
            _ => Err(CutError::ColumnNotFound),
        }
    }
}

impl CutFilter {
    /// Whether the row passes this filter.
    pub fn passes(&self, row: &Vec<i32>) -> (r: bool)
        requires
            self.vertices@.len() >= 3,
        ensures
            r == passes(*self, row@),
    {
        if self.x_index >= row.len() || self.y_index >= row.len() {
            return false;
        }
        point_in_polygon(&self.vertices, (row[self.x_index], row[self.y_index]))
    }
}

/// The rows that pass `f`, in their order.
pub fn apply_cut(rows: &Vec<Vec<i32>>, f: &CutFilter) -> (r: Vec<Vec<i32>>)
    requires
        f.vertices@.len() >= 3,
    ensures
        rows_view(r@) == keep(rows_view(rows@), *f),
{
    let mut out: Vec<Vec<i32>> = Vec::new();
    let mut k: usize = 0;
    while k < rows.len()
        invariant
            k <= rows@.len(),
            f.vertices@.len() >= 3,
            rows_view(out@) == keep(rows_view(rows@).subrange(0, k as int), *f),
        decreases rows@.len() - k,
    {
        let ghost before = out@;
        let ghost pre = rows_view(rows@).subrange(0, k as int);
        let ghost next = rows_view(rows@).subrange(0, k + 1);
        assert(next.drop_last() =~= pre);
        assert(next.last() == rows@[k as int]@);
        proof {
            reveal(Seq::filter);
        }
        if f.passes(&rows[k]) {
            let row = rows[k].clone();
            out.push(row);
            assert(rows_view(out@) =~= rows_view(before).push(row@));
        }
        k = k + 1;
    }
    assert(rows_view(rows@).subrange(0, rows@.len() as int) =~= rows_view(rows@));
    out
}

/// `f` is `c` with its columns found among `columns`.
pub open spec fn resolves(f: CutFilter, c: Cut, columns: Seq<String>) -> bool {
    &&& f.vertices@ == c.vertices@
    &&& spec_column_index(columns, c.x_column@) == Some(f.x_index as int)
    &&& spec_column_index(columns, c.y_column@) == Some(f.y_index as int)
}

/// Every cut of `cuts` has both its columns among `columns`.
pub open spec fn all_columns_found(cuts: Seq<Cut>, columns: Seq<String>) -> bool {
    forall|i: int|
        0 <= i < cuts.len() ==> spec_column_index(columns, (#[trigger] cuts[i]).x_column@) is Some
            && spec_column_index(columns, cuts[i].y_column@) is Some
}

/// The rows that pass every filter of `fs`, applied one after another.
pub fn apply_cuts(rows: &Vec<Vec<i32>>, fs: &Vec<CutFilter>) -> (r: Vec<Vec<i32>>)
    requires
        forall|i: int| 0 <= i < fs@.len() ==> (#[trigger] fs@[i]).vertices@.len() >= 3,
    ensures
        rows_view(r@) == keep_all(rows_view(rows@), fs@),
{
    let mut out: Vec<Vec<i32>> = copy_rows(rows);
    let mut k: usize = 0;
    while k < fs.len()
        invariant
            k <= fs@.len(),
            forall|i: int| 0 <= i < fs@.len() ==> (#[trigger] fs@[i]).vertices@.len() >= 3,
            rows_view(out@) == keep_all(rows_view(rows@), fs@.subrange(0, k as int)),
        decreases fs@.len() - k,
    {
        assert(fs@.subrange(0, k + 1).drop_last() =~= fs@.subrange(0, k as int));
        out = apply_cut(&out, &fs[k]);
        k = k + 1;
    }
    assert(fs@.subrange(0, fs@.len() as int) =~= fs@);
    out
}

fn copy_rows(rows: &Vec<Vec<i32>>) -> (r: Vec<Vec<i32>>)
    ensures
        rows_view(r@) == rows_view(rows@),
{
    let mut out: Vec<Vec<i32>> = Vec::new();
    let mut k: usize = 0;
    while k < rows.len()
        invariant
            k <= rows@.len(),
            rows_view(out@) == rows_view(rows@).subrange(0, k as int),
        decreases rows@.len() - k,
    {
        let row = rows[k].clone();
        assert(row@ =~= rows@[k as int]@);
        let ghost before = out@;
        out.push(row);
        assert(rows_view(out@) =~= rows_view(before).push(row@));
        k = k + 1;
        assert(rows_view(out@) =~= rows_view(rows@).subrange(0, k as int));
    }
    assert(rows_view(rows@).subrange(0, rows@.len() as int) =~= rows_view(rows@));
    out
}

pub open spec fn digit_char(d: int) -> char {
    if d == 0 {
        '0'
    } else if d == 1 {
        '1'
    } else if d == 2 {
        '2'
    } else if d == 3 {
        '3'
    } else if d == 4 {
        '4'
    } else if d == 5 {
        '5'
    } else if d == 6 {
        '6'
    } else if d == 7 {
        '7'
    } else if d == 8 {
        '8'
    } else {
        '9'
    }
}

/// `n` in decimal, without sign or leading zeros.
pub open spec fn decimal(n: nat) -> Seq<char>
    decreases n,
{
    if n < 10 {
        seq![digit_char(n as int)]
    } else {
        decimal(n / 10).push(digit_char((n % 10) as int))
    }
}

/// Relies on `ToString` for `usize` (its `Display`): the number's decimal
/// digits, with no sign, padding or leading zeros.
#[verifier::external_body]
fn decimal_string(n: usize) -> (r: String)
    ensures
        r@ == decimal(n as nat),
{
    n.to_string()
}

/// No two cuts share a name.
pub open spec fn names_distinct(cuts: Seq<Cut>) -> bool {
    forall|i: int, j: int|
        0 <= i < j < cuts.len() ==> (#[trigger] cuts[i]).name@ != (#[trigger] cuts[j]).name@
}

/// The cuts defined on a dataset, keyed by name, with at most one of them
/// active for editing, and the dataset's column names.
#[derive(Debug)]
pub struct CutHandler {
    pub cuts: Vec<Cut>,
    pub active_cut_id: Option<String>,
    pub column_names: Vec<String>,
}

impl CutHandler {
    /// Every cut is a polygon, names are unique, and the active cut, if any,
    /// is one of the cuts.
    pub open spec fn well_formed(&self) -> bool {
        &&& forall|i: int| 0 <= i < self.cuts@.len() ==> (#[trigger] self.cuts@[i]).well_formed()
        &&& names_distinct(self.cuts@)
        &&& self.active_cut_id matches Some(a) ==> exists|i: int|
            0 <= i < self.cuts@.len() && (#[trigger] self.cuts@[i]).name@ == a@
    }

    /// The position of the cut named `name`.
    pub open spec fn spec_find(&self, name: Seq<char>) -> Option<int> {
        if exists|i: int| 0 <= i < self.cuts@.len() && (#[trigger] self.cuts@[i]).name@ == name {
            Some(choose|i: int| 0 <= i < self.cuts@.len() && (#[trigger] self.cuts@[i]).name@ == name)
        } else {
            None
        }
    }

    /// No cuts, no columns.
    pub fn new() -> (r: CutHandler)
        ensures
            r.well_formed(),
            r.cuts@.len() == 0,
            r.active_cut_id is None,
            r.column_names@.len() == 0,
    {
        CutHandler { cuts: Vec::new(), active_cut_id: None, column_names: Vec::new() }
    }

    /// The position of the cut named `name`, if there is one.
    pub fn find_cut(&self, name: &String) -> (r: Option<usize>)
        requires
            self.well_formed(),
        ensures
            r matches Some(i) ==> i < self.cuts@.len() && self.cuts@[i as int].name@ == name@,
            r is None ==> forall|i: int| 0 <= i < self.cuts@.len() ==> (#[trigger] self.cuts@[i]).name@ != name@,
            r matches Some(i) ==> self.spec_find(name@) == Some(i as int),
            r is None ==> self.spec_find(name@) is None,
    {
        let mut k: usize = 0;
        while k < self.cuts.len()
            invariant
                self.well_formed(),
                k <= self.cuts@.len(),
                forall|j: int| 0 <= j < k ==> (#[trigger] self.cuts@[j]).name@ != name@,
            decreases self.cuts@.len() - k,
        {
            if self.cuts[k].name == *name {
                proof {
                    let i = choose|i: int| 0 <= i < self.cuts@.len() && (#[trigger] self.cuts@[i]).name@ == name@;
                    if i > k {
                        assert(self.cuts@[k as int].name@ != self.cuts@[i].name@);
                    }
                }
                return Some(k);
            }
            k = k + 1;
        }
        None
    }

    /// Adds `cut`, or replaces the cut of the same name, and makes it the
    /// active one.
    pub fn add_cut(&mut self, cut: Cut)
        requires
            old(self).well_formed(),
            cut.well_formed(),
        ensures
            final(self).well_formed(),
            final(self).column_names@ == old(self).column_names@,
            final(self).active_cut_id matches Some(a) && a@ == cut.name@,
            match old(self).spec_find(cut.name@) {
                Some(i) => final(self).cuts@ == old(self).cuts@.update(i, cut),
                None => final(self).cuts@ == old(self).cuts@.push(cut),
            },
    {
        let name = cut.name.clone();
        let ghost prev = self.cuts@;
        match self.find_cut(&name) {
            Some(i) => {
                self.cuts.set(i, cut);
                assert(self.cuts@[i as int].name@ == name@);
                assert(forall|j: int| 0 <= j < prev.len() ==> (#[trigger] self.cuts@[j]).name@ == prev[j].name@);
                assert(forall|j: int| 0 <= j < prev.len() && j != i ==> #[trigger] self.cuts@[j] == prev[j]);
                assert(names_distinct(self.cuts@)) by {
                    assert forall|a: int, b: int| 0 <= a < b < self.cuts@.len() implies (
                    #[trigger] self.cuts@[a]).name@ != (#[trigger] self.cuts@[b]).name@ by {
                        assert(self.cuts@[a].name@ == prev[a].name@);
                        assert(self.cuts@[b].name@ == prev[b].name@);
                    }
                }
            },
            None => {
                self.cuts.push(cut);
                assert(self.cuts@[self.cuts@.len() - 1].name@ == name@);
                assert(forall|j: int| 0 <= j < prev.len() ==> #[trigger] self.cuts@[j] == prev[j]);
                assert(names_distinct(self.cuts@)) by {
                    assert forall|a: int, b: int| 0 <= a < b < self.cuts@.len() implies (
                    #[trigger] self.cuts@[a]).name@ != (#[trigger] self.cuts@[b]).name@ by {
                        assert(self.cuts@[a] == prev[a]);
                        if b < prev.len() {
                            assert(self.cuts@[b] == prev[b]);
                        } else {
                            assert(prev[a].name@ != name@);
                        }
                    }
                }
            },
        }
        self.active_cut_id = Some(name);
    }

    /// Adds a cut named `cut_<n>`, `n` being one more than the number of cuts
    /// (replacing a cut of that name), and makes it the active one; `false`,
    /// and no change, with fewer than three vertices.
    pub fn add_new_cut(&mut self, x_column: String, y_column: String, vertices: Vec<(i32, i32)>) -> (r:
        bool)
        requires
            old(self).well_formed(),
            old(self).cuts@.len() < usize::MAX,
        ensures
            final(self).well_formed(),
            r == (vertices@.len() >= 3),
            !r ==> *final(self) == *old(self),
            r ==> {
                let name = "cut_"@ + decimal((old(self).cuts@.len() + 1) as nat);
                &&& final(self).active_cut_id matches Some(a) && a@ == name
                &&& final(self).column_names@ == old(self).column_names@
                &&& match old(self).spec_find(name) {
                    Some(i) => final(self).cuts@.len() == old(self).cuts@.len() && final(self).cuts@[i].name@ == name
                        && final(self).cuts@[i].vertices@ == vertices@
                        && forall|j: int| 0 <= j < old(self).cuts@.len() && j != i ==> #[trigger] final(self).cuts@[j] == old(self).cuts@[j],
                    None => final(self).cuts@.len() == old(self).cuts@.len() + 1 && final(self).cuts@.last().name@ == name
                        && final(self).cuts@.last().vertices@ == vertices@
                        && forall|j: int| 0 <= j < old(self).cuts@.len() ==> #[trigger] final(self).cuts@[j] == old(self).cuts@[j],
                }
            },
    {
        if vertices.len() < 3 {
            return false;
        }
        let number = decimal_string(self.cuts.len() + 1);
        let name = String::from_str("cut_").concat(number.as_str());
        proof {
            reveal_strlit("cut_");
        }
        let cut = Cut { name, x_column, y_column, vertices };
        self.add_cut(cut);
        true
    }

    /// Removes the cut named `name`; if it was the active one, no cut is
    /// active afterwards. Returns whether there was such a cut.
    pub fn remove_cut(&mut self, name: &String) -> (r: bool)
        requires
            old(self).well_formed(),
        ensures
            final(self).well_formed(),
            final(self).column_names@ == old(self).column_names@,
            r == old(self).spec_find(name@) is Some,
            match old(self).spec_find(name@) {
                Some(i) => final(self).cuts@ == old(self).cuts@.remove(i),
                None => final(self).cuts@ == old(self).cuts@,
            },
            match old(self).active_cut_id {
                Some(a) => if a@ == name@ {
                    final(self).active_cut_id is None
                } else {
                    final(self).active_cut_id == old(self).active_cut_id
                },
                None => final(self).active_cut_id is None,
            },
    {
        match self.find_cut(name) {
            Some(i) => {
                let ghost prev = self.cuts@;
                self.cuts.remove(i);
                let clear = match &self.active_cut_id {
                    Some(a) => *a == *name,
                    None => false,
                };
                if clear {
                    self.active_cut_id = None;
                }
                proof {
                    assert forall|a: int, b: int| 0 <= a < b < self.cuts@.len() implies (
                    #[trigger] self.cuts@[a]).name@ != (#[trigger] self.cuts@[b]).name@ by {
                        let a2 = if a < i { a } else { a + 1 };
                        let b2 = if b < i { b } else { b + 1 };
                        assert(self.cuts@[a] == prev[a2]);
                        assert(self.cuts@[b] == prev[b2]);
                    }
                    assert forall|k: int| 0 <= k < self.cuts@.len() implies (
                    #[trigger] self.cuts@[k]).well_formed() by {
                        let k2 = if k < i { k } else { k + 1 };
                        assert(self.cuts@[k] == prev[k2]);
                    }
                    if self.active_cut_id is Some {
                        let a = self.active_cut_id->0;
                        let j = choose|j: int| 0 <= j < prev.len() && (#[trigger] prev[j]).name@ == a@;
                        assert(j != i);
                        let j2 = if j < i { j } else { j - 1 };
                        assert(self.cuts@[j2] == prev[j]);
                    }
                }
                true
            },
            None => false,
        }
    }

    /// Makes the cut named `name` the active one; returns whether it exists
    /// (if not, nothing changes).
    pub fn set_active_cut(&mut self, name: &String) -> (r: bool)
        requires
            old(self).well_formed(),
        ensures
            final(self).well_formed(),
            final(self).cuts@ == old(self).cuts@,
            final(self).column_names@ == old(self).column_names@,
            r == old(self).spec_find(name@) is Some,
            r ==> (final(self).active_cut_id matches Some(a) && a@ == name@),
            !r ==> final(self).active_cut_id == old(self).active_cut_id,
    {
        match self.find_cut(name) {
            Some(i) => {
                self.active_cut_id = Some(name.clone());
                assert(self.cuts@[i as int].name@ == name@);
                true
            },
            None => false,
        }
    }

    /// The cut being edited, if any.
    pub fn active_cut(&self) -> (r: Option<&Cut>)
        requires
            self.well_formed(),
        ensures
            r is Some <==> self.active_cut_id is Some,
            r matches Some(c) ==> (self.active_cut_id matches Some(a) && c.name@ == a@
                && self.cuts@.contains(*c)),
    {
        match &self.active_cut_id {
            Some(a) => match self.find_cut(a) {
                Some(i) => Some(&self.cuts[i]),
                None => None,
            },
            None => None,
        }
    }

    /// Records the column names of the dataset the cuts apply to.
    pub fn update_column_names(&mut self, column_names: Vec<String>)
        requires
            old(self).well_formed(),
        ensures
            final(self).well_formed(),
            final(self).cuts@ == old(self).cuts@,
            final(self).active_cut_id == old(self).active_cut_id,
            final(self).column_names@ == column_names@,
    {
        self.column_names = column_names;
    }

    /// Every cut, with its columns found among `column_names`.
    pub fn filters(&self) -> (r: Result<Vec<CutFilter>, CutError>)
        requires
            self.well_formed(),
        ensures
            r is Err <==> !all_columns_found(self.cuts@, self.column_names@),
            r matches Err(e) ==> e == CutError::ColumnNotFound,
            r matches Ok(fs) ==> fs@.len() == self.cuts@.len() && forall|i: int|
                0 <= i < fs@.len() ==> resolves(#[trigger] fs@[i], self.cuts@[i], self.column_names@),
    {
        let mut fs: Vec<CutFilter> = Vec::new();
        let mut k: usize = 0;
        while k < self.cuts.len()
            invariant
                self.well_formed(),
                k <= self.cuts@.len(),
                fs@.len() == k,
                forall|i: int| 0 <= i < k ==> resolves(#[trigger] fs@[i], self.cuts@[i], self.column_names@),
            decreases self.cuts@.len() - k,
        {
            match self.cuts[k].resolve(&self.column_names) {
                Ok(f) => {
                    fs.push(f);
                },
                Err(e) => {
                    return Err(e);
                },
            }
            k = k + 1;
        }
        assert(all_columns_found(self.cuts@, self.column_names@)) by {
            assert forall|i: int| 0 <= i < self.cuts@.len() implies spec_column_index(
                self.column_names@,
                (#[trigger] self.cuts@[i]).x_column@,
            ) is Some && spec_column_index(self.column_names@, self.cuts@[i].y_column@) is Some by {
                assert(resolves(fs@[i], self.cuts@[i], self.column_names@));
            }
        }
        Ok(fs)
    }

    /// The rows (their values in the order of `column_names`) that lie inside
    /// every cut.
    pub fn filter_rows_with_all_cuts(&self, rows: &Vec<Vec<i32>>) -> (r: Result<
        Vec<Vec<i32>>,
        CutError,
    >)
        requires
            self.well_formed(),
        ensures
            r is Err <==> !all_columns_found(self.cuts@, self.column_names@),
            r matches Err(e) ==> e == CutError::ColumnNotFound,
            r matches Ok(out) ==> exists|fs: Seq<CutFilter>|
                {
                    &&& fs.len() == self.cuts@.len()
                    &&& forall|i: int|
                        0 <= i < fs.len() ==> resolves(#[trigger] fs[i], self.cuts@[i], self.column_names@)
                    &&& #[trigger] keep_all(rows_view(rows@), fs) == rows_view(out@)
                },
    {
        let fs = self.filters()?;
        proof {
            assert forall|i: int| 0 <= i < fs@.len() implies (#[trigger] fs@[i]).vertices@.len() >= 3 by {
                assert(self.cuts@[i].well_formed());
            }
        }
        let out = apply_cuts(rows, &fs);
        Ok(out)
    }
}

proof fn lemma_filter_filter(rows: Seq<Seq<i32>>, p: spec_fn(Seq<i32>) -> bool, q: spec_fn(Seq<i32>) -> bool)
    ensures
        rows.filter(p).filter(q) == rows.filter(|row: Seq<i32>| p(row) && q(row)),
    decreases rows.len(),
{
    reveal(Seq::filter);
    if rows.len() > 0 {
        let r0 = rows.drop_last();
        let x = rows.last();
        lemma_filter_filter(r0, p, q);
        let a = r0.filter(p);
        if p(x) {
            assert(rows.filter(p) == a.push(x));
            assert(a.push(x).drop_last() =~= a);
            assert(a.push(x).last() == x);
        } else {
            assert(rows.filter(p) == a);
        }
    }
}

/// Applying two cuts one after the other keeps the same rows, in the same
/// order, whichever of the two comes first.
pub proof fn lemma_cut_order_irrelevant(rows: Seq<Seq<i32>>, f: CutFilter, g: CutFilter)
    ensures
        keep(keep(rows, f), g) == keep(keep(rows, g), f),
{
    let pf = |row: Seq<i32>| passes(f, row);
    let pg = |row: Seq<i32>| passes(g, row);
    lemma_filter_filter(rows, pf, pg);
    lemma_filter_filter(rows, pg, pf);
    assert((|row: Seq<i32>| pf(row) && pg(row)) =~= (|row: Seq<i32>| pg(row) && pf(row)));
}

/// The row passes every filter of `fs`.
pub open spec fn passes_all(fs: Seq<CutFilter>, row: Seq<i32>) -> bool {
    forall|i: int| 0 <= i < fs.len() ==> passes(#[trigger] fs[i], row)
}

/// Cuts applied in turn compose as a conjunction: the rows left are those,
/// in their order, that pass every cut.
pub proof fn lemma_cuts_conjunction(rows: Seq<Seq<i32>>, fs: Seq<CutFilter>)
    ensures
        keep_all(rows, fs) == rows.filter(|row: Seq<i32>| passes_all(fs, row)),
    decreases fs.len(),
{
    if fs.len() == 0 {
        assert(fs =~= Seq::<CutFilter>::empty());
        lemma_filter_all(rows);
    } else {
        let init = fs.drop_last();
        let last = fs.last();
        lemma_cuts_conjunction(rows, init);
        let pa = |row: Seq<i32>| passes_all(init, row);
        let pl = |row: Seq<i32>| passes(last, row);
        lemma_filter_filter(rows, pa, pl);
        assert(keep_all(rows, init) == rows.filter(pa));
        assert(keep_all(rows, fs) == rows.filter(pa).filter(pl));
        assert forall|row: Seq<i32>| #![auto] (pa(row) && pl(row)) == passes_all(fs, row) by {
            if pa(row) && pl(row) {
                assert forall|i: int| 0 <= i < fs.len() implies passes(#[trigger] fs[i], row) by {
                    if i < init.len() {
                        assert(fs[i] == init[i]);
                    }
                }
            }
            if passes_all(fs, row) {
                assert forall|i: int| 0 <= i < init.len() implies passes(#[trigger] init[i], row) by {
                    assert(fs[i] == init[i]);
                }
                assert(passes(fs[fs.len() - 1], row));
            }
        }
        assert((|row: Seq<i32>| pa(row) && pl(row)) =~= (|row: Seq<i32>| passes_all(fs, row)));
    }
}

proof fn lemma_filter_all(rows: Seq<Seq<i32>>)
    ensures
        rows.filter(|row: Seq<i32>| passes_all(Seq::<CutFilter>::empty(), row)) == rows,
    decreases rows.len(),
{
    reveal(Seq::filter);
    if rows.len() > 0 {
        lemma_filter_all(rows.drop_last());
        assert(rows.drop_last().push(rows.last()) =~= rows);
    }
}

} // verus!
