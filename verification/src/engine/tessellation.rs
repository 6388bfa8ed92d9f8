//! One tessellation: centres over the active dimensions, and the payload of each
//! cell.

use crate::binary64::Binary64;
use crate::message::{text, Message, Text};
use crate::value::{same_numbers, Value};
use vstd::prelude::*;

verus! {

/// A set of centres, row-major over the active dimensions, with the values that
/// their cells carry (scaled space).
#[derive(Debug)]
pub struct Tessellation {
    centres: Vec<Binary64>,
    dims: Vec<usize>,
    mus: Vec<Binary64>,
    n_cells: usize,
}

/// The mathematical model of a [`Tessellation`].
#[verifier::ext_equal]
pub struct Partition {
    /// Centre coordinates, one block per cell.
    pub centres: Seq<Binary64>,
    /// The active dimensions.
    pub dims: Seq<usize>,
    /// Cell values, one block per cell.
    pub mus: Seq<Binary64>,
    /// Number of cells.
    pub n_cells: usize,
}

impl Partition {
    /// There is a dimension and a cell, every cell has one coordinate per dimension
    /// and the same positive number of values, and no dimension occurs twice.
    pub open spec fn coherent(self) -> bool {
        &&& self.dims.len() >= 1
        &&& self.n_cells >= 1
        &&& self.centres.len() == self.n_cells * self.dims.len()
        &&& self.mus.len() >= self.n_cells
        &&& self.mus.len() % (self.n_cells as nat) == 0
        &&& self.dims.no_duplicates()
    }

    /// The same dimensions and cells with equal numbers.
    pub open spec fn same(self, other: Self) -> bool {
        &&& same_numbers(self.centres, other.centres)
        &&& self.dims == other.dims
        &&& same_numbers(self.mus, other.mus)
        &&& self.n_cells == other.n_cells
    }

    /// The coordinates of centre `k`.
    pub open spec fn centre(self, k: int) -> Seq<Binary64> {
        self.centres.subrange(k * self.dims.len(), (k + 1) * self.dims.len())
    }

    /// How many values each cell carries.
    pub open spec fn payload_width(self) -> nat {
        self.mus.len() / self.n_cells as nat
    }
}

impl View for Tessellation {
    type V = Partition;

    closed spec fn view(&self) -> Partition {
        Partition {
            centres: self.centres@,
            dims: self.dims@,
            mus: self.mus@,
            n_cells: self.n_cells,
        }
    }
}

impl Value for Tessellation {
    open spec fn equal(self, other: Self) -> bool {
        self@.same(other@)
    }

    open spec fn copy_of(self, other: Self) -> bool {
        self@ == other@
    }

    fn equals(&self, other: &Self) -> (r: bool) {
        let r = self.centres.equals(&other.centres) && self.dims.equals(&other.dims)
            && self.mus.equals(&other.mus) && self.n_cells == other.n_cells;
        assert(self.dims.equal(other.dims) <==> self.dims@ =~= other.dims@);
        r
    }

    fn duplicate(&self) -> (r: Self) {
        proof {
            use_type_invariant(self);
        }
        let centres = self.centres.duplicate();
        let dims = self.dims.duplicate();
        let mus = self.mus.duplicate();
        assert(centres@ =~= self.centres@ && dims@ =~= self.dims@ && mus@ =~= self.mus@);
        Tessellation { centres, dims, mus, n_cells: self.n_cells }
    }
}

impl PartialEq for Tessellation {
    fn eq(&self, other: &Self) -> (r: bool) {
        self.equals(other)
    }
}

impl vstd::std_specs::cmp::PartialEqSpecImpl for Tessellation {
    open spec fn obeys_eq_spec() -> bool {
        true
    }

    open spec fn eq_spec(&self, other: &Self) -> bool {
        self.equal(*other)
    }
}

impl Clone for Tessellation {
    fn clone(&self) -> (r: Self)
        ensures
            r.copy_of(*self),
    {
        self.duplicate()
    }
}

/// Why the parts form no tessellation, where they do not.
pub open spec fn incoherence(
    centres: Seq<Binary64>,
    dims: Seq<usize>,
    mus: Seq<Binary64>,
) -> Option<Text> {
    if dims.len() == 0 {
        Some(text("a tessellation needs at least one active dimension"@))
    } else if !dims.no_duplicates() {
        Some(text("the active dimensions must be distinct"@))
    } else if centres.len() < dims.len() {
        Some(text("a tessellation needs at least one cell"@))
    } else if centres.len() % dims.len() != 0 {
        Some(
            text(""@).count(centres.len() as int).text(" centre coordinates for "@).count(
                dims.len() as int,
            ).text(" active dimensions"@),
        )
    } else if mus.len() < centres.len() / dims.len() || mus.len() % (centres.len() / dims.len())
        != 0 {
        Some(
            text(""@).count(mus.len() as int).text(" cell values for "@).count(
                (centres.len() / dims.len()) as int,
            ).text(" cells"@),
        )
    } else {
        None
    }
}

/// Are the entries distinct?
fn is_distinct(dims: &Vec<usize>) -> (r: bool)
    ensures
        r == dims@.no_duplicates(),
{
    for i in 0..dims.len()
        invariant
            forall|a: int, b: int| 0 <= a < b < i ==> dims@[a] != dims@[b],
    {
        for j in 0..i
            invariant
                i < dims@.len(),
                forall|a: int| 0 <= a < j ==> dims@[a] != dims@[i as int],
        {
            if dims[j] == dims[i] {
                assert(dims@[j as int] == dims@[i as int]);
                return false;
            }
        }
    }
    assert forall|a: int, b: int|
        0 <= a < dims@.len() && 0 <= b < dims@.len() && a != b implies dims@[a] != dims@[b] by {
        if b < a {
            assert(dims@[b] != dims@[a]);
        }
    }
    true
}

impl Tessellation {
    #[verifier::type_invariant]
    spec fn is_coherent(self) -> bool {
        Partition {
            centres: self.centres@,
            dims: self.dims@,
            mus: self.mus@,
            n_cells: self.n_cells,
        }.coherent()
    }

    /// A tessellation of the given parts, or why they form none.
    pub fn new(centres: Vec<Binary64>, dims: Vec<usize>, mus: Vec<Binary64>) -> (r: std::result::Result<
        Self,
        Message,
    >)
        ensures
            match r {
                Ok(t) => {
                    &&& incoherence(centres@, dims@, mus@) is None
                    &&& t@.centres == centres@
                    &&& t@.dims == dims@
                    &&& t@.mus == mus@
                    &&& t@.n_cells == centres@.len() / dims@.len()
                    &&& t@.coherent()
                },
                Err(reason) => incoherence(centres@, dims@, mus@) == Some(reason@),
            },
    {
        let d: usize = dims.len();
        if d == 0 {
            return Err(Message::of("a tessellation needs at least one active dimension"));
        }
        if !is_distinct(&dims) {
            return Err(Message::of("the active dimensions must be distinct"));
        }
        if centres.len() < d {
            return Err(Message::of("a tessellation needs at least one cell"));
        }
        if centres.len() % d != 0 {
            return Err(
                Message::of("").count(centres.len()).text(" centre coordinates for ").count(
                    d,
                ).text(" active dimensions"),
            );
        }
        let n_cells: usize = centres.len() / d;
        proof {
            vstd::arithmetic::div_mod::lemma_fundamental_div_mod(centres@.len() as int, d as int);
            assert(n_cells >= 1) by (nonlinear_arith)
                requires
                    d * n_cells == centres@.len(),
                    centres@.len() >= d,
                    d >= 1,
            ;
            assert(d * n_cells == n_cells * d) by (nonlinear_arith);
        }
        if mus.len() < n_cells || mus.len() % n_cells != 0 {
            return Err(
                Message::of("").count(mus.len()).text(" cell values for ").count(n_cells).text(
                    " cells",
                ),
            );
        }
        Ok(Tessellation { centres, dims, mus, n_cells })
    }

    /// Number of cells.
    pub fn n_cells(&self) -> (r: usize)
        ensures
            r == self@.n_cells,
            self@.coherent(),
    {
        proof {
            use_type_invariant(self);
        }
        self.n_cells
    }

    /// The centre coordinates, one block per cell.
    pub fn centres(&self) -> (r: &Vec<Binary64>)
        ensures
            r@ == self@.centres,
            self@.coherent(),
    {
        proof {
            use_type_invariant(self);
        }
        &self.centres
    }

    /// The active dimensions.
    pub fn dims(&self) -> (r: &Vec<usize>)
        ensures
            r@ == self@.dims,
            self@.coherent(),
    {
        proof {
            use_type_invariant(self);
        }
        &self.dims
    }

    /// The cell values, one block per cell.
    pub fn mus(&self) -> (r: &Vec<Binary64>)
        ensures
            r@ == self@.mus,
            self@.coherent(),
    {
        proof {
            use_type_invariant(self);
        }
        &self.mus
    }

    /// The same cells with other values, one block of the same width per cell.
    pub fn with_mus(self, mus: Vec<Binary64>) -> (r: Self)
        requires
            mus@.len() >= self@.n_cells,
            mus@.len() % (self@.n_cells as nat) == 0,
        ensures
            r@ == (Partition { mus: mus@, ..self@ }),
            r@.coherent(),
    {
        proof {
            use_type_invariant(&self);
        }
        Tessellation { centres: self.centres, dims: self.dims, mus, n_cells: self.n_cells }
    }

    /// The values of one cell.
    pub fn cell_payload(&self, cell: usize) -> (r: &[Binary64])
        requires
            cell < self@.n_cells,
        ensures
            r@ == self@.mus.subrange(
                cell * self@.payload_width(),
                (cell + 1) * self@.payload_width(),
            ),
            r@.len() == self@.payload_width(),
    {
        proof {
            use_type_invariant(self);
        }
        let width: usize = self.mus.len() / self.n_cells;
        proof {
            vstd::arithmetic::div_mod::lemma_fundamental_div_mod(
                self.mus@.len() as int,
                self.n_cells as int,
            );
            assert((cell + 1) * width == cell * width + width) by (nonlinear_arith);
            assert((cell + 1) * width <= self.n_cells * width) by (nonlinear_arith)
                requires
                    cell + 1 <= self.n_cells,
            ;
            assert(0 <= cell * width) by (nonlinear_arith);
            assert(self.mus@.len() == self.mus.len());
        }
        vstd::slice::slice_subrange(self.mus.as_slice(), cell * width, cell * width + width)
    }
}

/// The coordinates of a centre lie within those of all centres.
pub proof fn lemma_centre_bounds(t: Partition, k: int)
    requires
        t.coherent(),
        0 <= k < t.n_cells,
    ensures
        0 <= k * t.dims.len() <= (k + 1) * t.dims.len() <= t.centres.len(),
        (k + 1) * t.dims.len() == k * t.dims.len() + t.dims.len(),
{
    let d = t.dims.len() as int;
    assert((k + 1) * d == k * d + d) by (nonlinear_arith);
    assert(0 <= k * d) by (nonlinear_arith)
        requires
            k >= 0,
            d >= 0,
    ;
    assert((k + 1) * d <= t.n_cells * d) by (nonlinear_arith)
        requires
            k + 1 <= t.n_cells,
            d >= 0,
    ;
}

/// A tessellation is built exactly from parts that fit: at least one dimension, none
/// twice, whole centres over the dimensions and at least one of them, and equally many
/// values for every cell, at least one. It keeps the parts as they are.
pub proof fn built_exactly_from_parts_that_fit(
    centres: Vec<Binary64>,
    dims: Vec<usize>,
    mus: Vec<Binary64>,
    r: std::result::Result<Tessellation, Message>,
)
    requires
        call_ensures(Tessellation::new, (centres, dims, mus), r),
    ensures
        r is Ok <==> {
            &&& dims@.len() > 0
            &&& dims@.no_duplicates()
            &&& exists|cells: int, width: int|
                cells >= 1 && width >= 1 && centres@.len() == #[trigger] (cells * dims@.len())
                    && mus@.len() == #[trigger] (cells * width)
        },
        r matches Ok(t) ==> {
            &&& t@.centres == centres@
            &&& t@.dims == dims@
            &&& t@.mus == mus@
            &&& t@.n_cells * dims@.len() == centres@.len()
            &&& t@.n_cells >= 1
        },
{
    let (c, d, m) = (centres@.len() as int, dims@.len() as int, mus@.len() as int);
    if d > 0 {
        vstd::arithmetic::div_mod::lemma_fundamental_div_mod(c, d);
    }
    if incoherence(centres@, dims@, mus@) is None {
        let cells = c / d;
        assert(d * cells == cells * d) by (nonlinear_arith);
        assert(cells >= 1) by (nonlinear_arith)
            requires
                d * cells == c,
                c >= d,
                d >= 1,
        ;
        vstd::arithmetic::div_mod::lemma_fundamental_div_mod(m, cells);
        let width = m / cells;
        assert(cells * width == m);
        assert(width >= 1) by (nonlinear_arith)
            requires
                cells * width == m,
                m >= cells,
                cells >= 1,
        ;
        assert(c == cells * d);
    }
    if d > 0 && dims@.no_duplicates() && exists|cells: int, width: int|
        cells >= 1 && width >= 1 && c == #[trigger] (cells * dims@.len()) && m == #[trigger] (cells
            * width) {
        let (cells, width) = choose|cells: int, width: int|
            cells >= 1 && width >= 1 && c == #[trigger] (cells * dims@.len()) && m == #[trigger] (
            cells * width);
        assert(c >= d && m >= cells) by (nonlinear_arith)
            requires
                c == cells * d,
                m == cells * width,
                cells >= 1,
                width >= 1,
                d >= 1,
        ;
        assert(c == d * cells + 0) by (nonlinear_arith)
            requires
                c == cells * d,
        ;
        vstd::arithmetic::div_mod::lemma_fundamental_div_mod_converse(c, d, cells, 0);
        assert(m == cells * width + 0);
        assert(m == width * cells + 0) by (nonlinear_arith)
            requires
                m == cells * width,
        ;
        vstd::arithmetic::div_mod::lemma_fundamental_div_mod_converse(m, cells, width, 0);
    }
}

/// The payloads of the cells, one after the other, are the values: all are equally long,
/// and value `j` of cell `k` stands at `k` times that length plus `j`.
pub proof fn payloads_tile_the_values(
    t: &Tessellation,
    cell: usize,
    other: usize,
    r: &[Binary64],
    s: &[Binary64],
    j: int,
)
    requires
        t@.coherent(),
        cell < t@.n_cells,
        other < t@.n_cells,
        call_ensures(Tessellation::cell_payload, (t, cell), r),
        call_ensures(Tessellation::cell_payload, (t, other), s),
        0 <= j < r@.len(),
    ensures
        r@.len() == s@.len(),
        t@.n_cells * r@.len() == t@.mus.len(),
        r@[j] == t@.mus[cell * r@.len() + j],
{
    let w = t@.payload_width() as int;
    vstd::arithmetic::div_mod::lemma_fundamental_div_mod(t@.mus.len() as int, t@.n_cells as int);
    assert((cell + 1) * w == cell * w + w) by (nonlinear_arith);
    assert((cell + 1) * w <= t@.n_cells * w) by (nonlinear_arith)
        requires
            cell + 1 <= t@.n_cells,
            0 <= w,
    ;
    assert(0 <= cell * w) by (nonlinear_arith)
        requires
            0 <= w,
    ;
}

/// New values leave the structure alone, and are read back as they were given.
pub proof fn new_values_leave_the_structure_alone(
    t: Tessellation,
    mus: Vec<Binary64>,
    r: Tessellation,
    back: Tessellation,
    old_mus: Vec<Binary64>,
)
    requires
        old_mus@ == t@.mus,
        call_ensures(Tessellation::with_mus, (t, mus), r),
        call_ensures(Tessellation::with_mus, (r, old_mus), back),
    ensures
        r@.mus == mus@,
        r@.centres == t@.centres,
        r@.dims == t@.dims,
        r@.n_cells == t@.n_cells,
        back@ == t@,
{
}

/// A tessellation is read back as it was put in.
pub proof fn tessellation_reads_back(
    centres: Vec<Binary64>,
    dims: Vec<usize>,
    mus: Vec<Binary64>,
    t: Tessellation,
    n: usize,
    read_centres: &Vec<Binary64>,
    read_dims: &Vec<usize>,
    read_mus: &Vec<Binary64>,
)
    requires
        call_ensures(Tessellation::new, (centres, dims, mus), Ok(t)),
        call_ensures(Tessellation::n_cells, (&t,), n),
        call_ensures(Tessellation::centres, (&t,), read_centres),
        call_ensures(Tessellation::dims, (&t,), read_dims),
        call_ensures(Tessellation::mus, (&t,), read_mus),
    ensures
        read_centres@ == centres@ && read_dims@ == dims@ && read_mus@ == mus@,
        n * dims@.len() == centres@.len(),
{
    built_exactly_from_parts_that_fit(centres, dims, mus, Ok(t));
}

/// Tessellations are equal exactly where their dimensions and cell counts are and their
/// centres and values are, one by one.
pub proof fn tessellations_equal_part_by_part(a: Tessellation, b: Tessellation, r: bool)
    requires
        call_ensures(Tessellation::equals, (&a, &b), r),
    ensures
        r <==> {
            &&& a@.dims == b@.dims && a@.n_cells == b@.n_cells
            &&& a@.centres.len() == b@.centres.len() && a@.mus.len() == b@.mus.len()
            &&& forall|i: int|
                0 <= i < a@.centres.len() ==> (#[trigger] a@.centres[i]).same(b@.centres[i])
            &&& forall|i: int| 0 <= i < a@.mus.len() ==> (#[trigger] a@.mus[i]).same(b@.mus[i])
        },
{
}

/// A copied tessellation holds the same parts.
pub proof fn copied_tessellation_is_the_tessellation(a: Tessellation, b: Tessellation)
    requires
        call_ensures(Tessellation::clone, (&a,), b),
    ensures
        b@.centres == a@.centres && b@.dims == a@.dims && b@.mus == a@.mus && b@.n_cells
            == a@.n_cells,
{
}

} // verus!
