use vstd::prelude::*;
use crate::catalogue::Taxonomies;
use crate::taxonomy::{normalized_records, record_views, Taxonomy};

verus! {

/// The two catalogues that exist.
#[derive(PartialEq, Eq, Structural, Clone, Copy, Debug)]
pub enum TaxonomyType {
    Base,
    Micro,
}

/// Holds each catalogue once it has been built; a built catalogue is never
/// rebuilt or replaced.
pub struct CatalogueRegistry {
    base: Option<Taxonomies>,
    micro: Option<Taxonomies>,
}

impl CatalogueRegistry {
    /// The catalogue of a kind, if it has been built.
    pub closed spec fn slot(&self, kind: TaxonomyType) -> Option<Taxonomies> {
        match kind {
            TaxonomyType::Base => self.base,
            TaxonomyType::Micro => self.micro,
        }
    }

    /// Every built catalogue is well formed.
    pub open spec fn wf(&self) -> bool {
        &&& (self.slot(TaxonomyType::Base) matches Some(t) ==> t.wf())
        &&& (self.slot(TaxonomyType::Micro) matches Some(t) ==> t.wf())
    }

    /// A registry in which nothing has been built yet.
    pub fn new() -> (r: CatalogueRegistry)
        ensures
            r.wf(),
            r.slot(TaxonomyType::Base) is None,
            r.slot(TaxonomyType::Micro) is None,
    {
        CatalogueRegistry { base: None, micro: None }
    }

    /// Whether the catalogue of `kind` has been built.
    pub fn is_materialized(&self, kind: TaxonomyType) -> (r: bool)
        ensures
            r == self.slot(kind) is Some,
    {
        match kind {
            TaxonomyType::Base => self.base.is_some(),
            TaxonomyType::Micro => self.micro.is_some(),
        }
    }

    /// Builds the catalogue of `kind` from `records` unless it already exists;
    /// an existing catalogue, and the other kind's, stay as they were.
    pub fn materialize(&mut self, kind: TaxonomyType, records: Vec<Taxonomy>)
        requires
            old(self).wf(),
        ensures
            final(self).wf(),
            old(self).slot(kind) is Some ==> final(self).slot(kind) == old(self).slot(kind),
            old(self).slot(kind) is None ==> final(self).slot(kind) is Some && final(self).slot(
                kind,
            )->0@ == normalized_records(record_views(records@)),
            forall|other: TaxonomyType|
                other != kind ==> #[trigger] final(self).slot(other) == old(self).slot(other),
    {
        match kind {
            TaxonomyType::Base => {
                if self.base.is_none() {
                    self.base = Some(Taxonomies::from_records(records));
                }
            },
            TaxonomyType::Micro => {
                if self.micro.is_none() {
                    self.micro = Some(Taxonomies::from_records(records));
                }
            },
        }
    }
}

impl Taxonomies {
    /// The catalogue of `taxonomy_type` held by `registry`, if it has been built.
    pub fn new<'a>(registry: &'a CatalogueRegistry, taxonomy_type: TaxonomyType) -> (r: Option<&'a Taxonomies>)
        requires
            registry.wf(),
        ensures
            match r {
                Some(t) => registry.slot(taxonomy_type) == Some(*t) && t.wf(),
                None => registry.slot(taxonomy_type) is None,
            },
    {
        match taxonomy_type {
            TaxonomyType::Base => registry.base.as_ref(),
            TaxonomyType::Micro => registry.micro.as_ref(),
        }
    }
}

} // verus!
