use taxonomy_index::catalogue::Taxonomies;
use taxonomy_index::registry::{CatalogueRegistry, TaxonomyType};
use taxonomy_index::taxonomy::{normalize, Taxonomy};

fn rule(code: u32, class: &str, debit: &str, credit: &str) -> Taxonomy {
    Taxonomy {
        taxonomy_code: code,
        sncsvat: format!("Ref {}", code),
        class: class.to_string(),
        debit: debit.to_string(),
        credit: credit.to_string(),
    }
}

fn codes(v: &[&Taxonomy]) -> Vec<u32> {
    v.iter().map(|t| t.taxonomy_code).collect()
}

fn sample() -> Taxonomies {
    Taxonomies::from_records(vec![
        rule(1, "Vendas", "Clientes", "Vendas"),
        rule(2, " Compras ", "Compras", "Fornecedores"),
        rule(3, "vendas", "Caixa", " VENDAS"),
        rule(4, "Outros", "Vendas", "Caixa"),
        rule(5, "Vendas", "Bancos", "vendas "),
    ])
}

#[test]
fn normalize_trims_and_lowercases() {
    assert_eq!(normalize("  Vendas E Serviços  "), "vendas e serviços");
    assert_eq!(normalize("ABC"), "abc");
    assert_eq!(normalize(""), "");
}

#[test]
fn records_are_normalized_on_load() {
    let t = Taxonomies::from_records(vec![rule(9, "  Classe A ", " DEB ", "Cred\t")]);
    let r = t.get_by_class("classe a").unwrap();
    assert_eq!(r.len(), 1);
    assert_eq!(r[0].class, "classe a");
    assert_eq!(r[0].debit, "deb");
    assert_eq!(r[0].credit, "cred");
    assert_eq!(r[0].sncsvat, "Ref 9");
    assert_eq!(r[0].taxonomy_code, 9);
}

#[test]
fn end_to_end_single_record() {
    let t = Taxonomies::from_records(vec![rule(75, "Vendas", "Clientes", "Vendas e serviços prestados")]);
    let r = t.get_by_dr("  VENDAS E SERVIÇOS PRESTADOS  ", None);
    assert_eq!(codes(&r), vec![75]);
    let g = t.get_by_class("vendas").unwrap();
    assert_eq!(codes(&g), vec![75]);
    assert!(t.get_by_class("nonexistent").is_none());
}

#[test]
fn key_case_and_padding_do_not_matter() {
    let t = sample();
    let a = codes(&t.get_by_dr("  VeNdAs ", None));
    let b = codes(&t.get_by_dr("vendas", None));
    assert_eq!(a, b);
    assert_eq!(a, vec![1, 3, 5, 4]);
}

#[test]
fn credits_precede_debits_in_input_order() {
    let t = Taxonomies::from_records(vec![
        rule(10, "a", "x", "k"),
        rule(11, "a", "k", "y"),
        rule(12, "b", "z", "k"),
        rule(13, "a", "k", "w"),
        rule(14, "c", "q", "k"),
    ]);
    assert_eq!(codes(&t.get_by_dr("K", None)), vec![10, 12, 14, 11, 13]);
}

#[test]
fn same_key_both_sides_appears_twice() {
    let t = Taxonomies::from_records(vec![rule(20, "a", "caixa", "caixa")]);
    assert_eq!(codes(&t.get_by_dr("caixa", None)), vec![20, 20]);
}

#[test]
fn group_filter_keeps_only_that_group() {
    let t = sample();
    let r = t.get_by_dr("vendas", Some("  VENDAS "));
    assert_eq!(codes(&r), vec![1, 3, 5]);
    assert!(r.iter().all(|x| x.class == "vendas"));
    let o = t.get_by_dr("vendas", Some("outros"));
    assert_eq!(codes(&o), vec![4]);
    assert!(t.get_by_dr("vendas", Some("compras")).is_empty());
}

#[test]
fn unknown_key_absent_versus_empty() {
    let t = sample();
    assert!(t.get_credits_by_dr("nonexistent-key", None).is_none());
    assert!(t.get_debits_by_dr("nonexistent-key", None).is_none());
    assert!(t.get_by_dr("nonexistent-key", None).is_empty());
}

#[test]
fn one_sided_lookups() {
    let t = sample();
    assert_eq!(codes(&t.get_credits_by_dr(" Vendas", None).unwrap()), vec![1, 3, 5]);
    assert_eq!(codes(&t.get_debits_by_dr("VENDAS", None).unwrap()), vec![4]);
    assert_eq!(codes(&t.get_credits_by_dr("vendas", Some("Vendas")).unwrap()), vec![1, 3, 5]);
    assert!(t.get_credits_by_dr("vendas", Some("outros")).is_none());
    assert_eq!(codes(&t.get_debits_by_dr("compras", Some("compras")).unwrap()), vec![2]);
}

#[test]
fn group_lookup_in_input_order() {
    let t = sample();
    assert_eq!(codes(&t.get_by_class(" VENDAS ").unwrap()), vec![1, 3, 5]);
    assert_eq!(codes(&t.get_by_class("compras").unwrap()), vec![2]);
}

#[test]
fn empty_key_is_indexed() {
    let t = Taxonomies::from_records(vec![rule(30, "  ", "", "x")]);
    assert_eq!(codes(&t.get_by_class("").unwrap()), vec![30]);
    assert_eq!(codes(&t.get_by_dr("   ", None)), vec![30]);
}

#[test]
fn empty_catalogue_finds_nothing() {
    let t = Taxonomies::from_records(Vec::new());
    assert!(t.get_by_dr("a", None).is_empty());
    assert!(t.get_by_class("a").is_none());
}

#[test]
fn registry_builds_each_catalogue_once() {
    let mut reg = CatalogueRegistry::new();
    assert!(!reg.is_materialized(TaxonomyType::Base));
    assert!(Taxonomies::new(&reg, TaxonomyType::Base).is_none());
    reg.materialize(TaxonomyType::Base, vec![rule(1, "a", "b", "c")]);
    assert!(reg.is_materialized(TaxonomyType::Base));
    assert!(!reg.is_materialized(TaxonomyType::Micro));
    reg.materialize(TaxonomyType::Base, vec![rule(2, "a", "b", "c")]);
    let first = codes(&Taxonomies::new(&reg, TaxonomyType::Base).unwrap().get_by_dr("c", None));
    let second = codes(&Taxonomies::new(&reg, TaxonomyType::Base).unwrap().get_by_dr("c", None));
    assert_eq!(first, vec![1]);
    assert_eq!(first, second);
    let a = Taxonomies::new(&reg, TaxonomyType::Base).unwrap();
    let b = Taxonomies::new(&reg, TaxonomyType::Base).unwrap();
    assert!(std::ptr::eq(a, b));
    reg.materialize(TaxonomyType::Micro, vec![rule(3, "a", "b", "c")]);
    assert_eq!(codes(&Taxonomies::new(&reg, TaxonomyType::Micro).unwrap().get_by_dr("c", None)), vec![3]);
    assert_eq!(codes(&Taxonomies::new(&reg, TaxonomyType::Base).unwrap().get_by_dr("c", None)), vec![1]);
}

#[test]
fn duplicate_keeps_every_field() {
    let t = rule(7, "A", "B", "C");
    assert_eq!(t.duplicate(), t);
    let n = t.normalized();
    assert_eq!(n, rule(7, "a", "b", "c"));
}
