//! Component wiring of a fit: the plain configuration plus the components that
//! were chosen explicitly.

use crate::engine::config::{accepted_settings, lemma_accepted_settings, AddiVortesConfig};
use crate::engine::error::Result;
use crate::engine::handle::Handle;
use crate::engine::model::ResponseFamily;
use vstd::prelude::*;

verus! {

/// The components of one fit; `None` everywhere is the built-in model.
#[derive(Debug)]
pub struct Components {
    /// Move set; `None` is the built-in one.
    pub move_set: Option<Handle>,
    /// Coordinate laws of the raw columns; `None` takes each metric's default.
    pub coords: Option<Vec<Handle>>,
    /// Cell assigner; `None` is the built-in one.
    pub assigner: Option<Handle>,
    /// Soft-membership kernel; `None` is hard membership.
    pub membership: Option<Handle>,
    /// Inclusion model; `None` is the uniform one.
    pub inclusion: Option<Handle>,
    /// Cell model; `None` is the conjugate Gaussian one.
    pub cell_model: Option<Handle>,
    /// Cell basis; `None` is a scalar payload.
    pub basis: Option<Handle>,
    /// Augmentation step; `None` is none.
    pub response_model: Option<Handle>,
    /// Scale model; `None` is the global one.
    pub scale_model: Option<Handle>,
    /// Count priors; `None` is the built-in pair.
    pub count_priors: Option<Handle>,
}

/// No component chosen.
pub open spec fn no_components() -> Components {
    Components {
        move_set: None,
        coords: None,
        assigner: None,
        membership: None,
        inclusion: None,
        cell_model: None,
        basis: None,
        response_model: None,
        scale_model: None,
        count_priors: None,
    }
}

impl Default for Components {
    fn default() -> (r: Self)
        ensures
            r == no_components(),
    {
        Components {
            move_set: None,
            coords: None,
            assigner: None,
            membership: None,
            inclusion: None,
            cell_model: None,
            basis: None,
            response_model: None,
            scale_model: None,
            count_priors: None,
        }
    }
}

impl Components {
    /// Was any component chosen explicitly? Such a fit refuses to be saved, as
    /// components have no portable form.
    pub fn any_custom(&self) -> (r: bool)
        ensures
            r <==> *self != no_components(),
    {
        self.move_set.is_some()
            || self.coords.is_some()
            || self.assigner.is_some()
            || self.membership.is_some()
            || self.inclusion.is_some()
            || self.cell_model.is_some()
            || self.basis.is_some()
            || self.response_model.is_some()
            || self.scale_model.is_some()
            || self.count_priors.is_some()
    }
}

/// A plain configuration and the components chosen for it.
#[derive(Debug)]
pub struct SamplerBuilder {
    /// The plain configuration.
    pub config: AddiVortesConfig,
    /// The chosen components.
    pub components: Components,
}

impl SamplerBuilder {
    /// Start from a plain configuration, without chosen components.
    pub fn new(config: AddiVortesConfig) -> (r: Self)
        ensures
            r == (SamplerBuilder { config, components: no_components() }),
    {
        SamplerBuilder { config, components: Components::default() }
    }

    /// Replace the response family of the configuration.
    pub fn with_response_family(self, family: ResponseFamily) -> (r: Self)
        ensures
            r == (SamplerBuilder {
                config: AddiVortesConfig { family, ..self.config },
                ..self
            }),
    {
        SamplerBuilder {
            config: self.config.with_response_family(family),
            components: self.components,
        }
    }

    /// Choose the move set; the last call wins.
    pub fn with_move_set(self, move_set: Handle) -> (r: Self)
        ensures
            r == (SamplerBuilder {
                components: Components { move_set: Some(move_set), ..self.components },
                ..self
            }),
    {
        SamplerBuilder {
            config: self.config,
            components: Components { move_set: Some(move_set), ..self.components },
        }
    }

    /// Choose the coordinate laws, one per raw column; the last call wins.
    pub fn with_coords(self, coords: Vec<Handle>) -> (r: Self)
        ensures
            r == (SamplerBuilder {
                components: Components { coords: Some(coords), ..self.components },
                ..self
            }),
    {
        SamplerBuilder {
            config: self.config,
            components: Components { coords: Some(coords), ..self.components },
        }
    }

    /// Choose the assignment geometry by a pairwise distance; the last call wins.
    pub fn with_distance(self, assigner: Handle) -> (r: Self)
        ensures
            r == (SamplerBuilder {
                components: Components { assigner: Some(assigner), ..self.components },
                ..self
            }),
    {
        SamplerBuilder {
            config: self.config,
            components: Components { assigner: Some(assigner), ..self.components },
        }
    }

    /// Choose the cell assigner; the last call wins.
    pub fn with_assigner(self, assigner: Handle) -> (r: Self)
        ensures
            r == (SamplerBuilder {
                components: Components { assigner: Some(assigner), ..self.components },
                ..self
            }),
    {
        SamplerBuilder {
            config: self.config,
            components: Components { assigner: Some(assigner), ..self.components },
        }
    }

    /// Choose the soft-membership kernel; the last call wins.
    pub fn with_membership(self, membership: Handle) -> (r: Self)
        ensures
            r == (SamplerBuilder {
                components: Components { membership: Some(membership), ..self.components },
                ..self
            }),
    {
        SamplerBuilder {
            config: self.config,
            components: Components { membership: Some(membership), ..self.components },
        }
    }

    /// Choose the inclusion model; the last call wins.
    pub fn with_inclusion(self, inclusion: Handle) -> (r: Self)
        ensures
            r == (SamplerBuilder {
                components: Components { inclusion: Some(inclusion), ..self.components },
                ..self
            }),
    {
        SamplerBuilder {
            config: self.config,
            components: Components { inclusion: Some(inclusion), ..self.components },
        }
    }

    /// Choose the cell model; the last call wins.
    pub fn with_cell_model(self, cell_model: Handle) -> (r: Self)
        ensures
            r == (SamplerBuilder {
                components: Components { cell_model: Some(cell_model), ..self.components },
                ..self
            }),
    {
        SamplerBuilder {
            config: self.config,
            components: Components { cell_model: Some(cell_model), ..self.components },
        }
    }

    /// Choose the cell basis; the last call wins.
    pub fn with_cell_basis(self, basis: Handle) -> (r: Self)
        ensures
            r == (SamplerBuilder {
                components: Components { basis: Some(basis), ..self.components },
                ..self
            }),
    {
        SamplerBuilder {
            config: self.config,
            components: Components { basis: Some(basis), ..self.components },
        }
    }

    /// Choose the augmentation step; the last call wins.
    pub fn with_response_model(self, response_model: Handle) -> (r: Self)
        ensures
            r == (SamplerBuilder {
                components: Components { response_model: Some(response_model), ..self.components },
                ..self
            }),
    {
        SamplerBuilder {
            config: self.config,
            components: Components { response_model: Some(response_model), ..self.components },
        }
    }

    /// Choose the scale model; the last call wins.
    pub fn with_scale_model(self, scale_model: Handle) -> (r: Self)
        ensures
            r == (SamplerBuilder {
                components: Components { scale_model: Some(scale_model), ..self.components },
                ..self
            }),
    {
        SamplerBuilder {
            config: self.config,
            components: Components { scale_model: Some(scale_model), ..self.components },
        }
    }

    /// Choose the count priors; the last call wins.
    pub fn with_count_priors(self, count_priors: Handle) -> (r: Self)
        ensures
            r == (SamplerBuilder {
                components: Components { count_priors: Some(count_priors), ..self.components },
                ..self
            }),
    {
        SamplerBuilder {
            config: self.config,
            components: Components { count_priors: Some(count_priors), ..self.components },
        }
    }

    /// The plain configuration.
    pub fn config(&self) -> (r: &AddiVortesConfig)
        ensures
            *r == self.config,
    {
        &self.config
    }

    /// The configuration and components a sampler is built from, once the
    /// configuration is valid.
    pub fn validated(self) -> (r: Result<(AddiVortesConfig, Components)>)
        ensures
            match r {
                Ok(parts) => self.config.failure() is None && parts == (
                    self.config,
                    self.components,
                ),
                Err(e) => self.config.failure() == Some(e@),
            },
    {
        match self.config.validate() {
            Ok(_) => Ok((self.config, self.components)),
            Err(e) => Err(e),
        }
    }
}

/// The last choice of a component wins: choosing it twice, first as in `x` and then as in
/// `y`, is choosing it once as in `y`.
pub proof fn last_choice_wins(c: Components, x: Components, y: Components)
    ensures
        (Components { move_set: y.move_set, ..(Components { move_set: x.move_set, ..c }) }) == (
        Components { move_set: y.move_set, ..c }),
        (Components { coords: y.coords, ..(Components { coords: x.coords, ..c }) }) == (
        Components { coords: y.coords, ..c }),
        (Components { assigner: y.assigner, ..(Components { assigner: x.assigner, ..c }) }) == (
        Components { assigner: y.assigner, ..c }),
        (Components { membership: y.membership, ..(Components { membership: x.membership, ..c }) }) == (
        Components { membership: y.membership, ..c }),
        (Components { inclusion: y.inclusion, ..(Components { inclusion: x.inclusion, ..c }) }) == (
        Components { inclusion: y.inclusion, ..c }),
        (Components { cell_model: y.cell_model, ..(Components { cell_model: x.cell_model, ..c }) }) == (
        Components { cell_model: y.cell_model, ..c }),
        (Components { basis: y.basis, ..(Components { basis: x.basis, ..c }) }) == (
        Components { basis: y.basis, ..c }),
        (Components { response_model: y.response_model, ..(Components { response_model: x.response_model, ..c }) }) == (
        Components { response_model: y.response_model, ..c }),
        (Components { scale_model: y.scale_model, ..(Components { scale_model: x.scale_model, ..c }) }) == (
        Components { scale_model: y.scale_model, ..c }),
        (Components { count_priors: y.count_priors, ..(Components { count_priors: x.count_priors, ..c }) }) == (
        Components { count_priors: y.count_priors, ..c }),
{
}

/// A choice counts as custom exactly where one of the components was chosen, and a
/// builder starts with none.
pub proof fn custom_exactly_when_something_was_chosen(
    c: Components,
    custom: bool,
    config: AddiVortesConfig,
    b: SamplerBuilder,
    fresh: bool,
)
    requires
        call_ensures(Components::any_custom, (&c,), custom),
        call_ensures(SamplerBuilder::new, (config,), b),
        call_ensures(Components::any_custom, (&b.components,), fresh),
    ensures
        custom <==> {
            ||| c.move_set is Some
            ||| c.coords is Some
            ||| c.assigner is Some
            ||| c.membership is Some
            ||| c.inclusion is Some
            ||| c.cell_model is Some
            ||| c.basis is Some
            ||| c.response_model is Some
            ||| c.scale_model is Some
            ||| c.count_priors is Some
        },
        !fresh,
        b.config == config,
{
}

/// What was chosen is what the validated builder hands out: every component as it was
/// chosen, the configuration as it was given but for the family, and both exactly where
/// the configuration is valid.
pub proof fn choices_reach_the_fit(
    b: SamplerBuilder,
    h: Seq<Handle>,
    coords: Vec<Handle>,
    family: ResponseFamily,
    steps: Seq<SamplerBuilder>,
    r: Result<(AddiVortesConfig, Components)>,
)
    requires
        h.len() == 9,
        steps.len() == 11,
        call_ensures(SamplerBuilder::with_move_set, (b, h[0]), steps[0]),
        call_ensures(SamplerBuilder::with_distance, (steps[0], h[1]), steps[1]),
        call_ensures(SamplerBuilder::with_membership, (steps[1], h[2]), steps[2]),
        call_ensures(SamplerBuilder::with_inclusion, (steps[2], h[3]), steps[3]),
        call_ensures(SamplerBuilder::with_cell_model, (steps[3], h[4]), steps[4]),
        call_ensures(SamplerBuilder::with_cell_basis, (steps[4], h[5]), steps[5]),
        call_ensures(SamplerBuilder::with_response_model, (steps[5], h[6]), steps[6]),
        call_ensures(SamplerBuilder::with_scale_model, (steps[6], h[7]), steps[7]),
        call_ensures(SamplerBuilder::with_count_priors, (steps[7], h[8]), steps[8]),
        call_ensures(SamplerBuilder::with_coords, (steps[8], coords), steps[9]),
        call_ensures(SamplerBuilder::with_response_family, (steps[9], family), steps[10]),
        call_ensures(SamplerBuilder::validated, (steps[10],), r),
    ensures
        r is Ok <==> accepted_settings(b.config),
        r matches Ok(parts) ==> {
            let (config, c) = parts;
            &&& c.move_set == Some(h[0])
            &&& c.assigner == Some(h[1])
            &&& c.membership == Some(h[2])
            &&& c.inclusion == Some(h[3])
            &&& c.cell_model == Some(h[4])
            &&& c.basis == Some(h[5])
            &&& c.response_model == Some(h[6])
            &&& c.scale_model == Some(h[7])
            &&& c.count_priors == Some(h[8])
            &&& c.coords == Some(coords)
            &&& config.family == family
            &&& config == (AddiVortesConfig { family: config.family, ..b.config })
        },
{
    lemma_accepted_settings(steps[10].config);
}

/// A geometry and an assigner are one component under two names, and the later choice
/// stands.
pub proof fn later_assigner_stands(
    b: SamplerBuilder,
    x: Handle,
    y: Handle,
    first: SamplerBuilder,
    second: SamplerBuilder,
)
    requires
        call_ensures(SamplerBuilder::with_distance, (b, x), first),
        call_ensures(SamplerBuilder::with_assigner, (first, y), second),
    ensures
        first.components.assigner == Some(x),
        second.components.assigner == Some(y),
        second.config == b.config,
{
}

} // verus!
