use vstd::prelude::*;

verus! {

broadcast use vstd::seq_lib::group_seq_properties;

/// What `str::trim` leaves of a text.
pub uninterp spec fn trimmed(s: Seq<char>) -> Seq<char>;

/// What `str::to_lowercase` makes of a text.
pub uninterp spec fn lowered(s: Seq<char>) -> Seq<char>;

/// Relies on `str::trim`: the text without its leading and trailing whitespace,
/// a function of the characters alone.
#[verifier::external_body]
fn trim_text(s: &str) -> (r: &str)
    ensures
        r@ == trimmed(s@),
{
    s.trim()
}

/// Relies on `str::to_lowercase`: the lower-case form of the text, a function of
/// the characters alone.
#[verifier::external_body]
fn lowercase_text(s: &str) -> (r: String)
    ensures
        r@ == lowered(s@),
{
    s.to_lowercase()
}

/// The normal form of a key or label: trimmed, then lower-cased.
pub open spec fn normalized(s: Seq<char>) -> Seq<char> {
    lowered(trimmed(s))
}

/// Trims surrounding whitespace and lower-cases the result.
pub fn normalize(s: &str) -> (r: String)
    ensures
        r@ == normalized(s@),
{
    lowercase_text(trim_text(s))
}

/// One classification rule of a catalogue.
#[derive(Debug, Clone, PartialEq, Default)]
pub struct Taxonomy {
    pub taxonomy_code: u32,
    pub sncsvat: String,
    pub class: String,
    pub debit: String,
    pub credit: String,
}

/// A rule seen as plain values.
pub struct TaxonomyView {
    pub taxonomy_code: u32,
    pub sncsvat: Seq<char>,
    pub class: Seq<char>,
    pub debit: Seq<char>,
    pub credit: Seq<char>,
}

impl View for Taxonomy {
    type V = TaxonomyView;

    open spec fn view(&self) -> TaxonomyView {
        TaxonomyView {
            taxonomy_code: self.taxonomy_code,
            sncsvat: self.sncsvat@,
            class: self.class@,
            debit: self.debit@,
            credit: self.credit@,
        }
    }
}

/// A rule with its group and both categories in normal form; the code and the
/// regulatory reference are kept as they are.
pub open spec fn normalized_record(t: TaxonomyView) -> TaxonomyView {
    TaxonomyView {
        taxonomy_code: t.taxonomy_code,
        sncsvat: t.sncsvat,
        class: normalized(t.class),
        debit: normalized(t.debit),
        credit: normalized(t.credit),
    }
}

/// The rules as loaded: each one in normal form, in input order.
pub open spec fn normalized_records(s: Seq<TaxonomyView>) -> Seq<TaxonomyView> {
    s.map_values(|t: TaxonomyView| normalized_record(t))
}

pub open spec fn record_views(s: Seq<Taxonomy>) -> Seq<TaxonomyView> {
    s.map_values(|t: Taxonomy| t@)
}

pub open spec fn ref_views(s: Seq<&Taxonomy>) -> Seq<TaxonomyView> {
    s.map_values(|t: &Taxonomy| t@)
}

impl Taxonomy {
    /// A copy of the rule, field for field.
    pub fn duplicate(&self) -> (r: Taxonomy)
        ensures
            r@ == self@,
    {
        Taxonomy {
            taxonomy_code: self.taxonomy_code,
            sncsvat: self.sncsvat.clone(),
            class: self.class.clone(),
            debit: self.debit.clone(),
            credit: self.credit.clone(),
        }
    }

    /// The rule with its group and categories put in normal form.
    pub fn normalized(&self) -> (r: Taxonomy)
        ensures
            r@ == normalized_record(self@),
    {
        Taxonomy {
            taxonomy_code: self.taxonomy_code,
            sncsvat: self.sncsvat.clone(),
            class: normalize(self.class.as_str()),
            debit: normalize(self.debit.as_str()),
            credit: normalize(self.credit.as_str()),
        }
    }
}

} // verus!
