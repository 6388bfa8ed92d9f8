//! What a description resolves to, setting by setting: which descriptions are accepted,
//! and what the accepted ones select.

use crate::binary64::{one, zero, Binary64};
use crate::config_spec::{
    coords_failure, family_failure, family_name, metric_named, metrics_failure, move_entry_failure,
    move_named, move_set_failure, moves_failure, named_moves, refused_spread, repeated,
    strict_failure, without_levels, Assembly, BasisSpec, ConfigSpec, CoordSpec, Distance,
    DistanceSpec, GowerColumnSpec, GowerKind, InclusionChoice, InclusionSpec, MembershipSpec, Move,
    MoveSpec, ScaleSpec, Shelf,
};
use crate::engine::column::CoordLaw;
use crate::engine::config::{accepted_settings, default_config, lemma_accepted_settings};
use crate::engine::data::{Data, Metric};
use crate::engine::error::Result;
use crate::engine::model::ResponseFamily;
use crate::message::decimal;
use crate::search::{first, lemma_first_holds};
use vstd::prelude::*;

verus! {

/// Finite and above zero.
pub open spec fn strictly_positive(value: Binary64) -> bool {
    value.finite() && zero().below(value)
}

/// The selected DART concentration is the described one, for the described number of
/// covariates: descriptions that differ in it select models that differ in it.
pub proof fn dart_keeps_its_concentration(
    alpha: Binary64,
    other: Binary64,
    p: usize,
    before: Shelf,
    s: Shelf,
    t: Shelf,
)
    requires
        call_ensures(InclusionSpec::apply, (&InclusionSpec::Dart { alpha }, before, p), Ok(s)),
        call_ensures(
            InclusionSpec::apply,
            (&InclusionSpec::Dart { alpha: other }, before, p),
            Ok(t),
        ),
    ensures
        s.inclusion matches Some(InclusionChoice::Dart { alpha: chosen, p: n }) && chosen == alpha
            && n == p,
        alpha != other ==> s.inclusion != t.inclusion,
        s.inclusion == t.inclusion ==> alpha == other,
{
}

/// Fixed weights are selected weight for weight, one for each covariate, and equal
/// weights for as many covariates as there are; nothing else of the shelf changes.
pub proof fn inclusion_keeps_its_weights(
    spec: InclusionSpec,
    p: usize,
    before: Shelf,
    s: Shelf,
)
    requires
        call_ensures(InclusionSpec::apply, (&spec, before, p), Ok(s)),
    ensures
        spec is Uniform <==> s.inclusion->0 is Uniform,
        spec is Weighted <==> s.inclusion->0 is Weighted,
        spec is Dart <==> s.inclusion->0 is Dart,
        s.inclusion->0 matches InclusionChoice::Uniform { p: n } ==> n == p,
        spec matches InclusionSpec::Weighted { weights } ==> {
            &&& weights@.len() == p
            &&& (s.inclusion->0)->weights@.len() == p
            &&& forall|i: int|
                0 <= i < p ==> #[trigger] (s.inclusion->0)->weights@[i] == weights@[i]
                    && strictly_positive(weights@[i])
        },
        s.moves == before.moves,
        s.coords == before.coords,
        s.distance == before.distance,
        s.scale == before.scale,
        s.count_priors == before.count_priors,
        s.basis == before.basis,
        s.membership == before.membership,
{
    if spec is Weighted {
        let weights = spec->weights;
        let bad = |i: int| !weights@[i].positive_finite();
        lemma_first_holds(weights@.len(), bad);
        assert forall|i: int| 0 <= i < p implies #[trigger] (s.inclusion->0)->weights@[i]
            == weights@[i] && strictly_positive(weights@[i]) by {
            assert(!bad(i));
        }
    }
}

/// What an inclusion model needs: every weight, or the concentration, finite and above
/// zero.
pub open spec fn sound_inclusion(spec: InclusionSpec) -> bool {
    match spec {
        InclusionSpec::Uniform => true,
        InclusionSpec::Weighted { weights } => forall|i: int|
            0 <= i < weights@.len() ==> strictly_positive(#[trigger] weights@[i]),
        InclusionSpec::Dart { alpha } => strictly_positive(alpha),
    }
}

/// The value check of an inclusion model.
proof fn lemma_inclusion_values(spec: InclusionSpec)
    ensures
        spec.value_failure() is None <==> sound_inclusion(spec),
{
    if spec is Weighted {
        let weights = spec->weights;
        let bad = |i: int| !weights@[i].positive_finite();
        lemma_first_holds(weights@.len(), bad);
        assert(forall|i: int|
            0 <= i < weights@.len() ==> bad(i) == !strictly_positive(#[trigger] weights@[i]));
        if first(weights@.len(), bad) is Some {
            let i = first(weights@.len(), bad)->0;
            assert(bad(i));
            assert(!strictly_positive(weights@[i]));
        } else {
            assert forall|i: int| 0 <= i < weights@.len() implies strictly_positive(
                #[trigger] weights@[i],
            ) by {
                assert(!bad(i));
            }
        }
    }
}

/// An inclusion model is accepted exactly where its numbers are finite and above zero
/// and, for fixed weights, there is one for each covariate.
pub proof fn inclusion_accepted_exactly_when_sound(
    spec: InclusionSpec,
    p: usize,
    before: Shelf,
    checked: Result<()>,
    r: Result<Shelf>,
)
    requires
        call_ensures(InclusionSpec::validate, (&spec,), checked),
        call_ensures(InclusionSpec::apply, (&spec, before, p), r),
    ensures
        checked is Ok <==> sound_inclusion(spec),
        r is Ok <==> {
            &&& sound_inclusion(spec)
            &&& spec matches InclusionSpec::Weighted { weights } ==> weights@.len() == p
        },
{
    lemma_inclusion_values(spec);
}

/// What a geometry needs: a finite Minkowski order of at least one, a level for every
/// categorical column, a precision matrix that is square, finite, symmetric and positive
/// definite; the others need nothing.
pub open spec fn sound_distance(spec: DistanceSpec, definite: bool) -> bool {
    match spec {
        DistanceSpec::Minkowski { p } => p.finite() && !p.below(one()),
        DistanceSpec::Gower { columns } => forall|i: int|
            0 <= i < columns@.len() ==> !((#[trigger] columns@[i]) matches GowerColumnSpec::Categorical {
                levels,
            } && levels == 0),
        DistanceSpec::Mahalanobis { precision } => {
            &&& forall|i: int|
                0 <= i < precision@.len() ==> (#[trigger] precision@[i])@.len() == precision@.len()
            &&& forall|i: int, j: int|
                0 <= i < precision@.len() && 0 <= j < precision@.len() ==> (
                #[trigger] precision@[i]@[j]).finite() && precision@[i]@[j].same(precision@[j]@[i])
            &&& definite
        },
        _ => true,
    }
}

/// The parameter check of a geometry.
proof fn lemma_distance(spec: DistanceSpec, definite: bool)
    ensures
        spec.failure(definite) is None <==> sound_distance(spec, definite),
{
    match spec {
        DistanceSpec::Gower { columns } => {
            let bad = |i: int| without_levels(columns@[i]);
            lemma_first_holds(columns@.len(), bad);
            if first(columns@.len(), bad) is Some {
                let i = first(columns@.len(), bad)->0;
                assert(bad(i));
                assert(columns@[i] == GowerColumnSpec::Categorical { levels: 0 });
            } else {
                assert forall|i: int| 0 <= i < columns@.len() implies !((
                #[trigger] columns@[i]) matches GowerColumnSpec::Categorical { levels } && levels
                    == 0) by {
                    assert(!bad(i));
                }
            }
        },
        DistanceSpec::Mahalanobis { precision } => {
            let bad = |i: int| precision@[i]@.len() != precision@.len();
            lemma_first_holds(precision@.len(), bad);
            if first(precision@.len(), bad) is Some {
                let i = first(precision@.len(), bad)->0;
                assert(bad(i));
            } else {
                assert forall|i: int| 0 <= i < precision@.len() implies (
                #[trigger] precision@[i])@.len() == precision@.len() by {
                    assert(!bad(i));
                }
            }
        },
        _ => {},
    }
}

/// A geometry is accepted exactly where its parameters are sound.
pub proof fn distance_accepted_exactly_when_sound(
    spec: DistanceSpec,
    definite: bool,
    before: Shelf,
    r: Result<Shelf>,
)
    requires
        call_ensures(DistanceSpec::apply, (&spec, before, definite), r),
    ensures
        r is Ok <==> sound_distance(spec, definite),
{
    lemma_distance(spec, definite);
}

/// A selected geometry is the described one with the described parameters: the order of
/// a Minkowski geometry, the levels of every Gower column, every entry of a precision
/// matrix at its place in reading order.
pub proof fn distance_keeps_its_parameters(
    spec: DistanceSpec,
    definite: bool,
    before: Shelf,
    s: Shelf,
)
    requires
        call_ensures(DistanceSpec::apply, (&spec, before, definite), Ok(s)),
    ensures
        s.distance is Some,
        spec is Euclidean <==> s.distance->0 is Euclidean,
        spec is Manhattan <==> s.distance->0 is Manhattan,
        spec is Cosine <==> s.distance->0 is Cosine,
        spec is Spherical <==> s.distance->0 is Spherical,
        spec matches DistanceSpec::Minkowski { p } ==> s.distance == Some(
            Distance::Minkowski { p },
        ),
        spec matches DistanceSpec::Gower { columns } ==> {
            &&& s.distance->0 is Gower
            &&& (s.distance->0)->kinds@.len() == columns@.len()
            &&& forall|i: int|
                0 <= i < columns@.len() ==> match #[trigger] columns@[i] {
                    GowerColumnSpec::Numeric => (s.distance->0)->kinds@[i] == GowerKind::Numeric,
                    GowerColumnSpec::Categorical { levels } => levels > 0 && (
                    s.distance->0)->kinds@[i] == GowerKind::Categorical { levels },
                }
        },
        spec matches DistanceSpec::Mahalanobis { precision } ==> {
            let w = precision@.len() as int;
            &&& s.distance->0 is Mahalanobis
            &&& (s.distance->0)->width == w
            &&& (s.distance->0)->Mahalanobis_precision@.len() == w * w
            &&& forall|i: int, j: int|
                0 <= i < w && 0 <= j < w ==> (s.distance->0)->Mahalanobis_precision@[i * w + j]
                    == #[trigger] precision@[i]@[j]
        },
        s.moves == before.moves,
        s.coords == before.coords,
        s.inclusion == before.inclusion,
        s.scale == before.scale,
        s.count_priors == before.count_priors,
        s.basis == before.basis,
        s.membership == before.membership,
{
    lemma_distance(spec, definite);
    if spec is Mahalanobis {
        let rows = spec->precision@;
        let flat = (s.distance->0)->Mahalanobis_precision@;
        let w = rows.len() as int;
        assert forall|i: int, j: int| 0 <= i < w && 0 <= j < w implies flat[i * w + j]
            == #[trigger] rows[i]@[j] by {
            let row = flat.subrange(i * w, (i + 1) * w);
            assert(row == rows[i]@);
            assert((i + 1) * w == i * w + w) by (nonlinear_arith);
            assert(0 <= i * w) by (nonlinear_arith)
                requires
                    0 <= i,
                    0 <= w,
            ;
            assert((i + 1) * w <= w * w) by (nonlinear_arith)
                requires
                    i + 1 <= w,
                    0 <= w,
            ;
            assert(row[j] == flat[i * w + j]);
        }
    }
}

/// A scale model is selected as described; it is accepted exactly where its variance is
/// finite and above zero, or it has a tessellation and either both prior parameters,
/// finite and above zero, or neither.
pub proof fn scale_selected_as_described(spec: ScaleSpec, before: Shelf, r: Result<Shelf>)
    requires
        call_ensures(ScaleSpec::apply, (&spec, before), r),
    ensures
        r is Ok <==> match spec {
            ScaleSpec::Pinned { sigma_sq } => strictly_positive(sigma_sq),
            ScaleSpec::HVariance { m_prime, nu_prime, lambda_prime } => {
                &&& m_prime > 0
                &&& nu_prime is Some <==> lambda_prime is Some
                &&& nu_prime is Some ==> strictly_positive(nu_prime->0)
                &&& lambda_prime is Some ==> strictly_positive(lambda_prime->0)
            },
        },
        r matches Ok(s) ==> {
            &&& s.scale == Some(spec)
            &&& s.moves == before.moves
            &&& s.coords == before.coords
            &&& s.distance == before.distance
            &&& s.inclusion == before.inclusion
            &&& s.count_priors == before.count_priors
            &&& s.basis == before.basis
            &&& s.membership == before.membership
        },
{
}

/// A basis is selected with its columns in order, its prior variance, and a payload of
/// one value more than there are columns; it is accepted exactly where the variance is
/// finite and above zero.
pub proof fn basis_selected_as_described(
    columns: Vec<usize>,
    sigma_beta_sq: Binary64,
    before: Shelf,
    r: Result<Shelf>,
)
    requires
        call_ensures(
            BasisSpec::apply,
            (&BasisSpec::Linear { columns, sigma_beta_sq }, before),
            r,
        ),
    ensures
        r is Ok <==> strictly_positive(sigma_beta_sq),
        r matches Ok(s) ==> {
            &&& s.basis is Some
            &&& s.basis->0.columns@ == columns@
            &&& s.basis->0.sigma_beta_sq == sigma_beta_sq
            &&& s.basis->0.q == columns@.len() + 1
            &&& s.moves == before.moves
            &&& s.coords == before.coords
            &&& s.distance == before.distance
            &&& s.inclusion == before.inclusion
            &&& s.scale == before.scale
            &&& s.count_priors == before.count_priors
            &&& s.membership == before.membership
        },
{
}

/// A kernel is selected with its temperature, and is accepted exactly where that is
/// finite and above zero.
pub proof fn membership_selected_as_described(tau: Binary64, before: Shelf, r: Result<Shelf>)
    requires
        call_ensures(MembershipSpec::apply, (&MembershipSpec::Softmax { tau }, before), r),
    ensures
        r is Ok <==> strictly_positive(tau),
        r matches Ok(s) ==> {
            &&& s.membership == Some(MembershipSpec::Softmax { tau })
            &&& s.moves == before.moves
            &&& s.coords == before.coords
            &&& s.distance == before.distance
            &&& s.inclusion == before.inclusion
            &&& s.scale == before.scale
            &&& s.count_priors == before.count_priors
            &&& s.basis == before.basis
        },
{
}

/// A coordinate law keeps its kind and its spread, and is accepted exactly where the
/// spread is finite and above zero.
pub proof fn coordinate_law_keeps_its_spread(
    spec: CoordSpec,
    sigma: Binary64,
    r: Result<CoordLaw>,
)
    requires
        spec == (CoordSpec::EuclideanNormal { sigma_c: sigma }) || spec == (
        CoordSpec::WrappedNormal { sigma_c: sigma }),
        call_ensures(CoordSpec::build, (&spec,), r),
    ensures
        r is Ok <==> strictly_positive(sigma),
        r is Ok && spec is EuclideanNormal ==> r->Ok_0 == (CoordLaw::EuclideanNormal {
            sigma_c: sigma,
        }),
        r is Ok && spec is WrappedNormal ==> r->Ok_0 == (CoordLaw::WrappedNormal {
            sigma_c: sigma,
        }),
{
}

/// The literal names of metrics, moves and families are different from one another.
proof fn lemma_names_differ()
    ensures
        "euclidean"@ != "spherical"@,
        "euclidean"@ != "categorical"@,
        "euclidean"@ != "prepared"@,
        "spherical"@ != "categorical"@,
        "spherical"@ != "prepared"@,
        "categorical"@ != "prepared"@,
        "add_centre"@ != "remove_centre"@,
        "add_centre"@ != "add_dimension"@,
        "add_centre"@ != "remove_dimension"@,
        "add_centre"@ != "change"@,
        "add_centre"@ != "swap"@,
        "remove_centre"@ != "add_dimension"@,
        "remove_centre"@ != "remove_dimension"@,
        "remove_centre"@ != "change"@,
        "remove_centre"@ != "swap"@,
        "add_dimension"@ != "remove_dimension"@,
        "add_dimension"@ != "change"@,
        "add_dimension"@ != "swap"@,
        "remove_dimension"@ != "change"@,
        "remove_dimension"@ != "swap"@,
        "change"@ != "swap"@,
        "gaussian"@ != "binary_probit"@,
        "gaussian"@ != "robust_t"@,
        "binary_probit"@ != "robust_t"@,
{
    reveal_strlit("euclidean");
    reveal_strlit("spherical");
    reveal_strlit("categorical");
    reveal_strlit("prepared");
    reveal_strlit("add_centre");
    reveal_strlit("remove_centre");
    reveal_strlit("add_dimension");
    reveal_strlit("remove_dimension");
    reveal_strlit("change");
    reveal_strlit("swap");
    reveal_strlit("gaussian");
    reveal_strlit("binary_probit");
    reveal_strlit("robust_t");
    assert("euclidean"@[0] != "spherical"@[0]);
    assert("euclidean"@.len() == 9 && "spherical"@.len() == 9);
    assert("categorical"@.len() == 11 && "prepared"@.len() == 8);
    assert("add_centre"@.len() == 10 && "remove_centre"@.len() == 13);
    assert("add_dimension"@.len() == 13 && "remove_dimension"@.len() == 16);
    assert("remove_centre"@[0] != "add_dimension"@[0]);
    assert("change"@.len() == 6 && "swap"@.len() == 4);
    assert("gaussian"@.len() == 8 && "robust_t"@.len() == 8 && "binary_probit"@.len() == 13);
    assert("gaussian"@[0] != "robust_t"@[0]);
}

/// Each metric has one name, and no other name is one: parsing accepts exactly the four
/// names and gives each its own metric.
pub proof fn each_metric_has_one_name(name: &str, r: Result<Metric>)
    requires
        call_ensures(crate::config_spec::parse_metric, (name,), r),
    ensures
        name@ == "euclidean"@ <==> (r matches Ok(m) && m == Metric::Euclidean),
        name@ == "spherical"@ <==> (r matches Ok(m) && m == Metric::Spherical),
        name@ == "categorical"@ <==> (r matches Ok(m) && m == Metric::Categorical),
        name@ == "prepared"@ <==> (r matches Ok(m) && m == Metric::Prepared),
{
    lemma_names_differ();
}

/// Each move has one name, and no other name is one.
pub proof fn each_move_has_one_name(entry: MoveSpec, r: Result<Move>)
    requires
        call_ensures(MoveSpec::build, (&entry,), r),
    ensures
        entry.name@ == "add_centre"@ <==> (r matches Ok(m) && m == Move::AddCentre),
        entry.name@ == "remove_centre"@ <==> (r matches Ok(m) && m == Move::RemoveCentre),
        entry.name@ == "add_dimension"@ <==> (r matches Ok(m) && m == Move::AddDimension),
        entry.name@ == "remove_dimension"@ <==> (r matches Ok(m) && m == Move::RemoveDimension),
        entry.name@ == "change"@ <==> (r matches Ok(m) && m == Move::Change),
        entry.name@ == "swap"@ <==> (r matches Ok(m) && m == Move::Swap),
{
    lemma_names_differ();
}

/// Adding and removing undo one another, for centres and for dimensions; a change and a
/// swap undo themselves. Undoing is mutual, and no two moves are undone by the same one.
pub proof fn reverses_pair_up(a: Move, b: Move, r: Move, s: Move, back: Move)
    requires
        call_ensures(Move::reverse, (a,), r),
        call_ensures(Move::reverse, (b,), s),
        call_ensures(Move::reverse, (r,), back),
    ensures
        back == a,
        a != b ==> r != s,
        a is AddCentre <==> r is RemoveCentre,
        a is AddDimension <==> r is RemoveDimension,
        r == a <==> a is Change || a is Swap,
{
}

/// A family is resolved from its own name, the Gaussian one where none is given; degrees
/// of freedom are needed by the robust family alone and become its own.
pub proof fn family_resolved_from_its_name(
    name: Option<String>,
    t_df: Option<Binary64>,
    r: Result<ResponseFamily>,
)
    requires
        call_ensures(crate::config_spec::resolve_response_family, (&name, t_df), r),
    ensures
        (name is None || name->0@ == "gaussian"@) && t_df is None <==> (r matches Ok(f) && f
            is Gaussian),
        name is Some && name->0@ == "binary_probit"@ && t_df is None <==> (r matches Ok(f) && f
            is BinaryProbit),
        name is Some && name->0@ == "robust_t"@ && t_df is Some && strictly_positive(t_df->0) <==> (
        r matches Ok(f) && f is RobustT),
        r matches Ok(ResponseFamily::RobustT { df }) ==> t_df == Some(df),
{
    lemma_names_differ();
}

/// The family that was resolved reports the name that it was resolved from.
pub proof fn families_report_their_names(
    name: String,
    t_df: Option<Binary64>,
    family: ResponseFamily,
    shown: &str,
)
    requires
        call_ensures(
            crate::config_spec::resolve_response_family,
            (&Some(name), t_df),
            Ok(family),
        ),
        call_ensures(crate::config_spec::response_family_name, (family,), shown),
    ensures
        shown@ == name@,
{
    lemma_names_differ();
}

/// The move that an entry names.
pub open spec fn entry_names(entry: MoveSpec, mv: Move) -> bool {
    match mv {
        Move::AddCentre => entry.name@ == "add_centre"@,
        Move::RemoveCentre => entry.name@ == "remove_centre"@,
        Move::AddDimension => entry.name@ == "add_dimension"@,
        Move::RemoveDimension => entry.name@ == "remove_dimension"@,
        Move::Change => entry.name@ == "change"@,
        Move::Swap => entry.name@ == "swap"@,
    }
}

/// What a move set needs: an entry, a known name and a finite weight above zero in each,
/// no move twice, and for every move that adds the one that removes, and the other way
/// round.
pub open spec fn sound_moves(list: Seq<MoveSpec>) -> bool {
    &&& list.len() > 0
    &&& forall|i: int|
        0 <= i < list.len() ==> strictly_positive((#[trigger] list[i]).weight) && exists|mv: Move|
            #[trigger] entry_names(list[i], mv)
    &&& forall|i: int, j: int|
        0 <= i < j < list.len() ==> (#[trigger] list[i]).name@ != (#[trigger] list[j]).name@
    &&& (exists|i: int| 0 <= i < list.len() && (#[trigger] list[i]).name@ == "add_centre"@) <==> (
    exists|i: int| 0 <= i < list.len() && (#[trigger] list[i]).name@ == "remove_centre"@)
    &&& (exists|i: int| 0 <= i < list.len() && (#[trigger] list[i]).name@ == "add_dimension"@)
        <==> (exists|i: int|
        0 <= i < list.len() && (#[trigger] list[i]).name@ == "remove_dimension"@)
}

/// A name stands for a move exactly where the entry names it.
proof fn lemma_entry_names(entry: MoveSpec, mv: Move)
    ensures
        entry_names(entry, mv) <==> move_named(entry.name@) == Some(mv),
        move_named(entry.name@) is Some <==> exists|m: Move| #[trigger] entry_names(entry, m),
{
    lemma_names_differ();
    if move_named(entry.name@) is Some {
        assert(entry_names(entry, move_named(entry.name@)->0));
    }
}

/// A set holds a move exactly where some entry has its name.
proof fn lemma_holds_move(list: Seq<MoveSpec>, mv: Move)
    requires
        forall|i: int|
            0 <= i < list.len() ==> move_named((#[trigger] list[i]).name@) is Some,
    ensures
        named_moves(list).contains(mv) <==> exists|i: int|
            0 <= i < list.len() && entry_names(#[trigger] list[i], mv),
{
    let moves = named_moves(list);
    if moves.contains(mv) {
        let i = choose|i: int| 0 <= i < moves.len() && moves[i] == mv;
        lemma_entry_names(list[i], mv);
        assert(move_named(list[i].name@) is Some);
        assert(entry_names(list[i], mv));
    }
    if exists|i: int| 0 <= i < list.len() && entry_names(#[trigger] list[i], mv) {
        let i = choose|i: int| 0 <= i < list.len() && entry_names(#[trigger] list[i], mv);
        lemma_entry_names(list[i], mv);
        assert(moves[i] == mv);
    }
}

/// The check of a move set.
proof fn lemma_moves(list: Vec<MoveSpec>)
    ensures
        moves_failure(Some(list)) is None <==> sound_moves(list@),
{
    let bad = |i: int| move_entry_failure(list@[i]) is Some;
    lemma_first_holds(list@.len(), bad);
    if first(list@.len(), bad) is Some {
        let i = first(list@.len(), bad)->0;
        assert(bad(i));
        lemma_entry_names(list@[i], Move::Swap);
        assert(move_named(list@[i].name@) is None || !strictly_positive(list@[i].weight));
        assert(!sound_moves(list@));
    } else if list@.len() > 0 {
        let moves = named_moves(list@);
        assert forall|i: int| 0 <= i < list@.len() implies strictly_positive(
            (#[trigger] list@[i]).weight,
        ) && move_named(list@[i].name@) is Some && (exists|mv: Move| #[trigger]
            entry_names(list@[i], mv)) by {
            assert(!bad(i));
            lemma_entry_names(list@[i], Move::Swap);
        }
        let twice = |i: int| repeated(moves, i);
        let lonely = |i: int| !moves.contains(moves[i].undone_by());
        lemma_first_holds(moves.len(), twice);
        lemma_first_holds(moves.len(), lonely);
        assert forall|i: int, j: int| 0 <= i < list@.len() && 0 <= j < list@.len() implies (
        #[trigger] moves[i] == #[trigger] moves[j] <==> list@[i].name@ == list@[j].name@) by {
            lemma_names_differ();
            assert(move_named(list@[i].name@) is Some);
            assert(move_named(list@[j].name@) is Some);
        }
        lemma_holds_move(list@, Move::AddCentre);
        lemma_holds_move(list@, Move::RemoveCentre);
        lemma_holds_move(list@, Move::AddDimension);
        lemma_holds_move(list@, Move::RemoveDimension);
        if first(moves.len(), twice) is Some {
            let i = first(moves.len(), twice)->0;
            assert(twice(i));
            let j = choose|j: int| 0 <= j < i && #[trigger] moves[j] == moves[i];
            assert(list@[j].name@ == list@[i].name@);
        } else {
            assert forall|i: int, j: int| 0 <= i < j < list@.len() implies (
            #[trigger] list@[i]).name@ != (#[trigger] list@[j]).name@ by {
                assert(!twice(j));
                assert(moves[i] != moves[j]);
            }
            if first(moves.len(), lonely) is Some {
                let i = first(moves.len(), lonely)->0;
                assert(lonely(i));
                assert(moves.contains(moves[i]));
                assert(moves[i].undone_by() != moves[i]);
                assert(!sound_moves(list@));
            } else {
                assert forall|i: int| 0 <= i < moves.len() implies moves.contains(
                    (#[trigger] moves[i]).undone_by(),
                ) by {
                    assert(!lonely(i));
                }
                assert(sound_moves(list@));
            }
        }
    }
}

/// What the assembly of a description holds: every setting that was described, as it was
/// described, and the default for every other one.
pub proof fn assembly_holds_every_setting(
    spec: ConfigSpec,
    p: Option<usize>,
    definite: bool,
    a: Assembly,
)
    requires
        call_ensures(ConfigSpec::assemble, (&spec, p, definite), Ok(a)),
    ensures
        a.config.seed == spec.seed,
        spec.m matches Some(v) ==> a.config.m == v,
        spec.burn_in matches Some(v) ==> a.config.burn_in == v,
        spec.draws matches Some(v) ==> a.config.n_draws == v,
        spec.thinning matches Some(v) ==> a.config.thinning == v,
        spec.nu matches Some(v) ==> a.config.nu == v,
        spec.q matches Some(v) ==> a.config.q == v,
        spec.k matches Some(v) ==> a.config.k == v,
        spec.lambda_c matches Some(v) ==> a.config.lambda_c == v,
        spec.omega matches Some(v) ==> a.config.omega == v,
        spec.sigma_c matches Some(v) ==> a.config.sigma_c == v,
        spec.m is None ==> a.config.m == 200,
        spec.burn_in is None ==> a.config.burn_in == 200,
        spec.draws is None ==> a.config.n_draws == 1000,
        spec.thinning is None ==> a.config.thinning == 1,
        spec.nu is None ==> a.config.nu == default_config(spec.seed).nu,
        spec.q is None ==> a.config.q == default_config(spec.seed).q,
        spec.k is None ==> a.config.k == default_config(spec.seed).k,
        spec.lambda_c is None ==> a.config.lambda_c == default_config(spec.seed).lambda_c,
        spec.omega is None ==> a.config.omega == default_config(spec.seed).omega,
        spec.sigma_c is None ==> a.config.sigma_c == default_config(spec.seed).sigma_c,
        (spec.response_family is None || spec.response_family->0@ == "gaussian"@)
            <==> a.config.family is Gaussian,
        (spec.response_family is Some && spec.response_family->0@ == "binary_probit"@)
            <==> a.config.family is BinaryProbit,
        (spec.response_family is Some && spec.response_family->0@ == "robust_t"@)
            <==> a.config.family is RobustT,
        a.config.family matches ResponseFamily::RobustT { df } ==> spec.t_df == Some(df),
        a.config.metrics is Some <==> spec.metrics is Some,
        spec.metrics matches Some(names) ==> {
            &&& a.config.metrics->0@.len() == names@.len()
            &&& forall|i: int|
                0 <= i < names@.len() ==> {
                    let (name, metric) = ((#[trigger] names@[i])@, a.config.metrics->0@[i]);
                    &&& name == "euclidean"@ <==> metric == Metric::Euclidean
                    &&& name == "spherical"@ <==> metric == Metric::Spherical
                    &&& name == "categorical"@ <==> metric == Metric::Categorical
                    &&& name == "prepared"@ <==> metric == Metric::Prepared
                }
        },
{
    lemma_names_differ();
}

/// What the assembly of a description selects from the shelf: the described components
/// with their parameters, those that are sized by the data only where the number of
/// covariates is known, and nothing that was not described.
pub proof fn assembly_selects_the_described_components(
    spec: ConfigSpec,
    p: Option<usize>,
    definite: bool,
    a: Assembly,
)
    requires
        call_ensures(ConfigSpec::assemble, (&spec, p, definite), Ok(a)),
    ensures
        a.shelf.moves is Some <==> spec.moves is Some,
        spec.moves matches Some(list) ==> {
            &&& a.shelf.moves->0@.len() == list@.len()
            &&& forall|i: int|
                0 <= i < list@.len() ==> entry_names(
                    #[trigger] list@[i],
                    a.shelf.moves->0@[i].0,
                ) && a.shelf.moves->0@[i].1 == list@[i].weight
        },
        a.shelf.coords is Some <==> spec.coords is Some && p is Some,
        spec.coords is Some && p is Some ==> {
            &&& a.shelf.coords->0@.len() == spec.coords->0@.len()
            &&& spec.coords->0@.len() == p->0
            &&& forall|i: int|
                0 <= i < spec.coords->0@.len() ==> match #[trigger] spec.coords->0@[i] {
                    CoordSpec::EuclideanNormal { sigma_c } => a.shelf.coords->0@[i] == (
                    CoordLaw::EuclideanNormal { sigma_c }),
                    CoordSpec::WrappedNormal { sigma_c } => a.shelf.coords->0@[i] == (
                    CoordLaw::WrappedNormal { sigma_c }),
                }
        },
        a.shelf.inclusion is Some <==> spec.inclusion is Some && p is Some,
        spec.inclusion is Some && p is Some ==> match spec.inclusion->0 {
            InclusionSpec::Uniform => a.shelf.inclusion == Some(
                InclusionChoice::Uniform { p: p->0 },
            ),
            InclusionSpec::Weighted { weights } => a.shelf.inclusion->0 is Weighted && (
            a.shelf.inclusion->0)->weights@ == weights@ && weights@.len() == p->0,
            InclusionSpec::Dart { alpha } => a.shelf.inclusion == Some(
                InclusionChoice::Dart { alpha, p: p->0 },
            ),
        },
        a.shelf.distance is Some <==> spec.distance is Some,
        spec.distance matches Some(DistanceSpec::Minkowski { p }) ==> a.shelf.distance == Some(
            Distance::Minkowski { p },
        ),
        spec.distance is Some ==> {
            &&& spec.distance->0 is Euclidean <==> a.shelf.distance->0 is Euclidean
            &&& spec.distance->0 is Manhattan <==> a.shelf.distance->0 is Manhattan
            &&& spec.distance->0 is Cosine <==> a.shelf.distance->0 is Cosine
            &&& spec.distance->0 is Spherical <==> a.shelf.distance->0 is Spherical
            &&& spec.distance->0 is Gower <==> a.shelf.distance->0 is Gower
            &&& spec.distance->0 is Mahalanobis <==> a.shelf.distance->0 is Mahalanobis
        },
        spec.distance matches Some(DistanceSpec::Gower { columns }) ==> {
            &&& (a.shelf.distance->0)->kinds@.len() == columns@.len()
            &&& forall|i: int|
                0 <= i < columns@.len() ==> match #[trigger] columns@[i] {
                    GowerColumnSpec::Numeric => (a.shelf.distance->0)->kinds@[i]
                        == GowerKind::Numeric,
                    GowerColumnSpec::Categorical { levels } => (a.shelf.distance->0)->kinds@[i] == (
                    GowerKind::Categorical { levels }),
                }
        },
        a.shelf.scale == spec.scale,
        a.shelf.count_priors == spec.count_priors,
        a.shelf.membership == spec.membership,
        a.shelf.basis is Some <==> spec.basis is Some,
        spec.basis matches Some(BasisSpec::Linear { columns, sigma_beta_sq }) ==> {
            &&& a.shelf.basis->0.columns@ == columns@
            &&& a.shelf.basis->0.sigma_beta_sq == sigma_beta_sq
            &&& a.shelf.basis->0.q == columns@.len() + 1
        },
{
    if spec.moves is Some {
        let list = spec.moves->0@;
        assert forall|i: int| 0 <= i < list.len() implies entry_names(
            #[trigger] list[i],
            a.shelf.moves->0@[i].0,
        ) && a.shelf.moves->0@[i].1 == list[i].weight by {
            lemma_entry_names(list[i], a.shelf.moves->0@[i].0);
        }
    }
    if spec.coords is Some {
        lemma_first_holds(spec.coords->0@.len(), refused_spread(spec.coords->0@));
    }
}

/// Where a geometry with a precision matrix is described, the assembly holds the matrix
/// entry by entry in reading order.
pub proof fn assembly_holds_the_precision_matrix(
    spec: ConfigSpec,
    p: Option<usize>,
    definite: bool,
    a: Assembly,
    i: int,
    j: int,
)
    requires
        call_ensures(ConfigSpec::assemble, (&spec, p, definite), Ok(a)),
        spec.distance matches Some(DistanceSpec::Mahalanobis { .. }),
        0 <= i < (spec.distance->0)->precision@.len(),
        0 <= j < (spec.distance->0)->precision@.len(),
    ensures
        (a.shelf.distance->0)->width == (spec.distance->0)->precision@.len(),
        (a.shelf.distance->0)->Mahalanobis_precision@[i * (spec.distance->0)->precision@.len() + j]
            == (spec.distance->0)->precision@[i]@[j],
{
    lemma_distance(spec.distance->0, definite);
    let rows = (spec.distance->0)->precision@;
    let flat = (a.shelf.distance->0)->Mahalanobis_precision@;
    let w = rows.len() as int;
    let row = flat.subrange(i * w, (i + 1) * w);
    assert(row == rows[i]@);
    assert((i + 1) * w == i * w + w) by (nonlinear_arith);
    assert(0 <= i * w) by (nonlinear_arith)
        requires
            0 <= i,
            0 <= w,
    ;
    assert((i + 1) * w <= w * w) by (nonlinear_arith)
        requires
            i + 1 <= w,
            0 <= w,
    ;
    assert(row[j] == flat[i * w + j]);
}

/// What a description needs, apart from the lengths that the data decide.
pub open spec fn sound_description(spec: ConfigSpec, definite: bool) -> bool {
    &&& spec.metrics matches Some(names) ==> forall|i: int|
        0 <= i < names@.len() ==> {
            let name = (#[trigger] names@[i])@;
            name == "euclidean"@ || name == "spherical"@ || name == "categorical"@ || name
                == "prepared"@
        }
    &&& spec.moves matches Some(list) ==> sound_moves(list@)
    &&& spec.coords matches Some(list) ==> forall|i: int|
        0 <= i < list@.len() ==> strictly_positive(
            match #[trigger] list@[i] {
                CoordSpec::EuclideanNormal { sigma_c } => sigma_c,
                CoordSpec::WrappedNormal { sigma_c } => sigma_c,
            },
        )
    &&& spec.distance matches Some(d) ==> sound_distance(d, definite)
    &&& spec.inclusion matches Some(i) ==> sound_inclusion(i)
    &&& match (spec.response_family, spec.t_df) {
        (None, df) => df is None,
        (Some(name), None) => name@ == "gaussian"@ || name@ == "binary_probit"@,
        (Some(name), Some(df)) => name@ == "robust_t"@ && strictly_positive(df),
    }
    &&& spec.scale matches Some(ScaleSpec::Pinned { sigma_sq }) ==> strictly_positive(sigma_sq)
    &&& spec.scale matches Some(ScaleSpec::HVariance { m_prime, nu_prime, lambda_prime }) ==> {
        &&& m_prime > 0
        &&& nu_prime is Some <==> lambda_prime is Some
        &&& nu_prime is Some ==> strictly_positive(nu_prime->0)
        &&& lambda_prime is Some ==> strictly_positive(lambda_prime->0)
    }
    &&& spec.basis matches Some(BasisSpec::Linear { sigma_beta_sq, .. }) ==> strictly_positive(
        sigma_beta_sq,
    )
    &&& spec.membership matches Some(MembershipSpec::Softmax { tau }) ==> strictly_positive(tau)
    &&& spec.m matches Some(m) ==> m > 0
    &&& spec.draws matches Some(n) ==> n > 0
    &&& spec.thinning matches Some(n) ==> n > 0
    &&& spec.nu matches Some(v) ==> strictly_positive(v)
    &&& spec.q matches Some(v) ==> zero().below(v) && v.below(one())
    &&& spec.k matches Some(v) ==> strictly_positive(v)
    &&& spec.lambda_c matches Some(v) ==> strictly_positive(v)
    &&& spec.omega matches Some(v) ==> strictly_positive(v)
    &&& spec.sigma_c matches Some(v) ==> strictly_positive(v)
}

/// The settings of a description that the data decide the length of.
pub open spec fn fits_covariates(spec: ConfigSpec, p: usize) -> bool {
    &&& spec.coords matches Some(list) ==> list@.len() == p
    &&& spec.inclusion matches Some(InclusionSpec::Weighted { weights }) ==> weights@.len() == p
}

/// The check of a list of metric names.
proof fn lemma_metrics(names: Vec<String>)
    ensures
        metrics_failure(Some(names)) is None <==> forall|i: int|
            0 <= i < names@.len() ==> {
                let name = (#[trigger] names@[i])@;
                name == "euclidean"@ || name == "spherical"@ || name == "categorical"@ || name
                    == "prepared"@
            },
{
    let bad = |i: int| metric_named(names@[i]@) is None;
    lemma_first_holds(names@.len(), bad);
    if first(names@.len(), bad) is Some {
        let i = first(names@.len(), bad)->0;
        assert(bad(i));
    } else {
        assert forall|i: int| 0 <= i < names@.len() implies ({
            let name = (#[trigger] names@[i])@;
            name == "euclidean"@ || name == "spherical"@ || name == "categorical"@ || name
                == "prepared"@
        }) by {
            assert(!bad(i));
        }
    }
}

/// The check of a list of coordinate laws.
proof fn lemma_coords(list: Vec<CoordSpec>)
    ensures
        first(list@.len(), refused_spread(list@)) matches Some(i) ==> strict_failure(
            "coords.sigma_c"@,
            list@[i].spread(),
        ) is Some,
        first(list@.len(), refused_spread(list@)) is None <==> forall|i: int|
            0 <= i < list@.len() ==> strictly_positive(
                match #[trigger] list@[i] {
                    CoordSpec::EuclideanNormal { sigma_c } => sigma_c,
                    CoordSpec::WrappedNormal { sigma_c } => sigma_c,
                },
            ),
{
    let bad = refused_spread(list@);
    lemma_first_holds(list@.len(), bad);
    if first(list@.len(), bad) is Some {
        let i = first(list@.len(), bad)->0;
        assert(bad(i));
        assert(!list@[i].spread().positive_finite());
    } else {
        assert forall|i: int| 0 <= i < list@.len() implies strictly_positive(
            match #[trigger] list@[i] {
                CoordSpec::EuclideanNormal { sigma_c } => sigma_c,
                CoordSpec::WrappedNormal { sigma_c } => sigma_c,
            },
        ) by {
            assert(!bad(i));
        }
    }
}

/// The hyperparameters of a description.
proof fn lemma_plain(spec: ConfigSpec)
    ensures
        spec.plain().failure() is None <==> {
            &&& spec.m matches Some(m) ==> m > 0
            &&& spec.draws matches Some(n) ==> n > 0
            &&& spec.thinning matches Some(n) ==> n > 0
            &&& spec.nu matches Some(v) ==> strictly_positive(v)
            &&& spec.q matches Some(v) ==> zero().below(v) && v.below(one())
            &&& spec.k matches Some(v) ==> strictly_positive(v)
            &&& spec.lambda_c matches Some(v) ==> strictly_positive(v)
            &&& spec.omega matches Some(v) ==> strictly_positive(v)
            &&& spec.sigma_c matches Some(v) ==> strictly_positive(v)
        },
{
    let c = spec.plain();
    let base = default_config(spec.seed);
    lemma_accepted_settings(c);
    assert(c.inclusion is None && c.cell_prior_sd is None);
    assert(strictly_positive(base.nu) && strictly_positive(base.k) && strictly_positive(
        base.sigma_c,
    ));
    assert(strictly_positive(base.omega) && strictly_positive(base.lambda_c));
    assert(zero().below(base.q) && base.q.below(one()));
}

/// The check of a description.
proof fn lemma_description(spec: ConfigSpec, p: Option<usize>, definite: bool)
    ensures
        spec.failure(p, definite) is None <==> sound_description(spec, definite) && (
        p matches Some(n) ==> fits_covariates(spec, n)),
{
    lemma_names_differ();
    lemma_plain(spec);
    if spec.metrics is Some {
        lemma_metrics(spec.metrics->0);
    }
    if spec.moves is Some {
        lemma_moves(spec.moves->0);
        assert(spec.moves == Some(spec.moves->0));
    }
    if spec.coords is Some {
        lemma_coords(spec.coords->0);
    }
    if spec.distance is Some {
        lemma_distance(spec.distance->0, definite);
    }
    if spec.inclusion is Some {
        lemma_inclusion_values(spec.inclusion->0);
    }
    let metrics = metrics_failure(spec.metrics) is None;
    let moves = moves_failure(spec.moves) is None;
    let coords = coords_failure(spec.coords, p) is None;
    let distance = spec.distance matches Some(d) ==> d.failure(definite) is None;
    let inclusion = spec.inclusion matches Some(i) ==> i.failure(p) is None;
    let family = family_failure(family_name(spec.response_family), spec.t_df) is None;
    let scale = spec.scale matches Some(s) ==> s.failure() is None;
    let basis = spec.basis matches Some(b) ==> b.failure() is None;
    let membership = spec.membership matches Some(k) ==> k.failure() is None;
    assert(spec.failure(p, definite) is None <==> metrics && moves && coords && distance
        && inclusion && family && scale && basis && membership && spec.plain().failure() is None);
    assert(family <==> match (spec.response_family, spec.t_df) {
        (None, df) => df is None,
        (Some(name), None) => name@ == "gaussian"@ || name@ == "binary_probit"@,
        (Some(name), Some(df)) => name@ == "robust_t"@ && strictly_positive(df),
    });
    assert(moves <==> (spec.moves matches Some(list) ==> sound_moves(list@)));
    assert(distance <==> (spec.distance matches Some(d) ==> sound_distance(d, definite)));
    assert(inclusion <==> (spec.inclusion matches Some(i) ==> sound_inclusion(i)) && (
    p matches Some(n) ==> (spec.inclusion matches Some(InclusionSpec::Weighted { weights })
        ==> weights@.len() == n)));
    assert(coords <==> (spec.coords matches Some(list) ==> first(
        list@.len(),
        refused_spread(list@),
    ) is None) && (p matches Some(n) ==> (spec.coords matches Some(list) ==> list@.len() == n)));
    assert(scale <==> (spec.scale matches Some(ScaleSpec::Pinned { sigma_sq })
        ==> strictly_positive(sigma_sq)) && (spec.scale matches Some(
        ScaleSpec::HVariance { m_prime, nu_prime, lambda_prime },
    ) ==> {
        &&& m_prime > 0
        &&& nu_prime is Some <==> lambda_prime is Some
        &&& nu_prime is Some ==> strictly_positive(nu_prime->0)
        &&& lambda_prime is Some ==> strictly_positive(lambda_prime->0)
    }));
    assert(basis <==> (spec.basis matches Some(BasisSpec::Linear { sigma_beta_sq, .. })
        ==> strictly_positive(sigma_beta_sq)));
    assert(membership <==> (spec.membership matches Some(MembershipSpec::Softmax { tau })
        ==> strictly_positive(tau)));
}

/// A description is accepted exactly where every setting of it is sound and, once the
/// number of covariates is known, its laws and weights are one for each.
pub proof fn description_accepted_exactly_when_sound(
    spec: ConfigSpec,
    p: Option<usize>,
    definite: bool,
    r: Result<Assembly>,
)
    requires
        call_ensures(ConfigSpec::assemble, (&spec, p, definite), r),
    ensures
        r is Ok <==> sound_description(spec, definite) && (p matches Some(n) ==> fits_covariates(
            spec,
            n,
        )),
{
    lemma_description(spec, p, definite);
}

/// Resolving against data and checking without it agree with the assembly: the data give
/// the number of covariates, and a check gives nothing but the verdict.
pub proof fn data_give_the_covariate_count(
    spec: ConfigSpec,
    x: &Data,
    definite: bool,
    checked: Result<()>,
    r: Result<Assembly>,
)
    requires
        call_ensures(ConfigSpec::validate, (&spec, definite), checked),
        call_ensures(ConfigSpec::into_config, (&spec, x, definite), r),
    ensures
        checked is Ok <==> sound_description(spec, definite),
        r is Ok <==> sound_description(spec, definite) && fits_covariates(spec, x@.n_cols),
        r matches Ok(a) ==> {
            &&& a.config.seed == spec.seed
            &&& spec.inclusion matches Some(InclusionSpec::Dart { alpha }) ==> a.shelf.inclusion
                == Some(InclusionChoice::Dart { alpha, p: x@.n_cols })
            &&& spec.inclusion matches Some(InclusionSpec::Uniform) ==> a.shelf.inclusion == Some(
                InclusionChoice::Uniform { p: x@.n_cols },
            )
            &&& spec.coords is Some ==> a.shelf.coords is Some && a.shelf.coords->0@.len()
                == x@.n_cols
        },
{
    lemma_description(spec, None, definite);
    lemma_description(spec, Some(x@.n_cols), definite);
}

/// A number is let through unchanged exactly where it is finite and above zero.
pub proof fn positive_numbers_pass_unchanged(name: &str, value: Binary64, r: Result<Binary64>)
    requires
        call_ensures(crate::config_spec::positive_finite, (name, value), r),
    ensures
        r is Ok <==> strictly_positive(value),
        r is Ok ==> r->Ok_0 == value,
{
}

/// A description that names nothing but the seed assembles into the defaults with no
/// component selected.
pub proof fn bare_description_gives_the_defaults(
    seed: u64,
    spec: ConfigSpec,
    p: Option<usize>,
    definite: bool,
    r: Result<Assembly>,
)
    requires
        call_ensures(ConfigSpec::new, (seed,), spec),
        call_ensures(ConfigSpec::assemble, (&spec, p, definite), r),
        r is Ok,
    ensures
        (r->Ok_0).config.seed == seed,
        (r->Ok_0).config.m == 200 && (r->Ok_0).config.n_draws == 1000,
        (r->Ok_0).config.burn_in == 200 && (r->Ok_0).config.thinning == 1,
        (r->Ok_0).config.family is Gaussian,
        (r->Ok_0).config.metrics is None,
        ({
            let s = (r->Ok_0).shelf;
            &&& s.moves is None && s.coords is None && s.distance is None && s.inclusion is None
            &&& s.scale is None && s.count_priors is None && s.basis is None && s.membership is None
        }),
{
    assembly_holds_every_setting(spec, p, definite, r->Ok_0);
    assembly_selects_the_described_components(spec, p, definite, r->Ok_0);
}

/// Each move reports the name of its kind; no two report the same.
pub proof fn moves_report_names_of_their_own(a: Move, b: Move, name_a: &str, name_b: &str)
    requires
        call_ensures(Move::name, (a,), name_a),
        call_ensures(Move::name, (b,), name_b),
    ensures
        name_a@ == name_b@ <==> a == b,
        a == Move::AddCentre <==> name_a@ == "AddCentre"@,
        a == Move::RemoveCentre <==> name_a@ == "RemoveCentre"@,
        a == Move::AddDimension <==> name_a@ == "AddDimension"@,
        a == Move::RemoveDimension <==> name_a@ == "RemoveDimension"@,
        a == Move::Change <==> name_a@ == "Change"@,
        a == Move::Swap <==> name_a@ == "Swap"@,
{
    reveal_strlit("AddCentre");
    reveal_strlit("RemoveCentre");
    reveal_strlit("AddDimension");
    reveal_strlit("RemoveDimension");
    reveal_strlit("Change");
    reveal_strlit("Swap");
    assert("AddCentre"@.len() == 9 && "RemoveCentre"@.len() == 12);
    assert("AddDimension"@.len() == 12 && "RemoveDimension"@.len() == 15);
    assert("AddDimension"@[0] == 'A' && "RemoveCentre"@[0] == 'R');
    assert("Change"@.len() == 6 && "Swap"@.len() == 4);
}

/// A refused component names what of it is at fault.
pub proof fn component_refusals_name_the_fault(
    inclusion: InclusionSpec,
    p: usize,
    scale: ScaleSpec,
    basis: BasisSpec,
    membership: MembershipSpec,
    shelf: Shelf,
    r: (Result<Shelf>, Result<Shelf>, Result<Shelf>, Result<Shelf>),
)
    requires
        basis.fits(),
        call_ensures(InclusionSpec::apply, (&inclusion, shelf, p), r.0),
        call_ensures(ScaleSpec::apply, (&scale, shelf), r.1),
        call_ensures(BasisSpec::apply, (&basis, shelf), r.2),
        call_ensures(MembershipSpec::apply, (&membership, shelf), r.3),
    ensures
        r.0 is Err ==> !(inclusion is Uniform) && r.0->Err_0@ is InvalidHyperparameter,
        r.0 is Err && inclusion is Dart ==> r.0->Err_0@->InvalidHyperparameter_name
            == "inclusion.alpha"@,
        r.0 is Err && inclusion is Weighted && (forall|i: int|
            0 <= i < inclusion->weights@.len() ==> strictly_positive(
                #[trigger] inclusion->weights@[i],
            )) ==> r.0->Err_0@->InvalidHyperparameter_name == "inclusion.weights"@,
        r.0 is Err && inclusion is Weighted && !(forall|i: int|
            0 <= i < inclusion->weights@.len() ==> strictly_positive(
                #[trigger] inclusion->weights@[i],
            )) ==> exists|i: int|
            {
                &&& 0 <= i < inclusion->weights@.len()
                &&& !strictly_positive(#[trigger] inclusion->weights@[i])
                &&& forall|j: int|
                    0 <= j < i ==> strictly_positive(#[trigger] inclusion->weights@[j])
                &&& r.0->Err_0@->InvalidHyperparameter_name == "inclusion.weights["@ + decimal(
                    i as nat,
                ) + "]"@
            },
        r.1 is Err ==> r.1->Err_0@ is InvalidHyperparameter,
        r.1 is Err && scale is Pinned ==> r.1->Err_0@->InvalidHyperparameter_name
            == "scale.sigma_sq"@,
        r.1 is Err && scale is HVariance ==> r.1->Err_0@->InvalidHyperparameter_name == (
        if scale->m_prime == 0 {
            "scale.m_prime"@
        } else if scale->nu_prime is Some && scale->lambda_prime is Some && strictly_positive(
            scale->nu_prime->0,
        ) {
            "scale.lambda_prime"@
        } else {
            "scale.nu_prime"@
        }),
        r.2 is Err ==> r.2->Err_0@ is InvalidHyperparameter
            && r.2->Err_0@->InvalidHyperparameter_name == "basis.sigma_beta_sq"@,
        r.3 is Err ==> r.3->Err_0@ is InvalidHyperparameter
            && r.3->Err_0@->InvalidHyperparameter_name == "membership.tau"@,
{
    if inclusion is Weighted {
        let weights = inclusion->weights@;
        let bad = |i: int| !weights[i].positive_finite();
        lemma_first_holds(weights.len(), bad);
        match first(weights.len(), bad) {
            Some(i) => {
                assert(bad(i));
                assert(!strictly_positive(inclusion->weights@[i]));
                assert forall|j: int| 0 <= j < i implies strictly_positive(
                    #[trigger] inclusion->weights@[j],
                ) by {
                    assert(!bad(j));
                }
            },
            None => {
                assert forall|j: int| 0 <= j < weights.len() implies strictly_positive(
                    #[trigger] inclusion->weights@[j],
                ) by {
                    assert(!bad(j));
                }
            },
        }
    }
}

/// A refused distance names its parameter.
pub proof fn distance_refusals_name_the_parameter(
    spec: DistanceSpec,
    shelf: Shelf,
    definite: bool,
    r: Result<Shelf>,
)
    requires
        call_ensures(DistanceSpec::apply, (&spec, shelf, definite), r),
        r is Err,
    ensures
        spec is Minkowski || spec is Gower || spec is Mahalanobis,
        spec is Minkowski ==> r->Err_0@ is InvalidHyperparameter
            && r->Err_0@->InvalidHyperparameter_name == "minkowski_p"@,
        spec is Mahalanobis ==> r->Err_0@ is InvalidHyperparameter
            && r->Err_0@->InvalidHyperparameter_name == "mahalanobis_precision"@,
{
}

} // verus!
