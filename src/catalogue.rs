use vstd::prelude::*;
use crate::taxonomy::{
    normalize, normalized, normalized_records, record_views, ref_views, Taxonomy, TaxonomyView,
};

verus! {

broadcast use vstd::seq_lib::group_seq_properties;

/// The three keys under which a rule is indexed.
#[derive(PartialEq, Eq, Structural, Clone, Copy, Debug)]
pub enum Side {
    Credit,
    Debit,
    Class,
}

/// The key of a rule on one side.
pub open spec fn key_on(side: Side, t: TaxonomyView) -> Seq<char> {
    match side {
        Side::Credit => t.credit,
        Side::Debit => t.debit,
        Side::Class => t.class,
    }
}

/// Whether a rule has key `k` on `side`.
pub open spec fn keyed(side: Side, k: Seq<char>) -> spec_fn(TaxonomyView) -> bool {
    |t: TaxonomyView| key_on(side, t) == k
}

/// The rules whose key on `side` is `k`, in their order.
pub open spec fn bucket_of(recs: Seq<TaxonomyView>, side: Side, k: Seq<char>) -> Seq<TaxonomyView> {
    recs.filter(keyed(side, k))
}

/// Whether a rule belongs to group `c`.
pub open spec fn in_class(c: Seq<char>) -> spec_fn(TaxonomyView) -> bool {
    |t: TaxonomyView| t.class == c
}

/// The optional group filter in normal form.
pub open spec fn class_key(class: Option<&str>) -> Option<Seq<char>> {
    match class {
        Some(c) => Some(normalized(c@)),
        None => None,
    }
}

/// `s` restricted to group `c` where a group is given, order kept.
pub open spec fn keep_class(s: Seq<TaxonomyView>, c: Option<Seq<char>>) -> Seq<TaxonomyView> {
    match c {
        Some(c) => s.filter(in_class(c)),
        None => s,
    }
}

/// What a lookup by direction gives: the rules with credit category `key`,
/// then those with debit category `key`, restricted to the group if one is given.
pub open spec fn by_direction(
    recs: Seq<TaxonomyView>,
    key: Seq<char>,
    class: Option<Seq<char>>,
) -> Seq<TaxonomyView> {
    keep_class(
        bucket_of(recs, Side::Credit, normalized(key)) + bucket_of(
            recs,
            Side::Debit,
            normalized(key),
        ),
        class,
    )
}

/// What a lookup on one side gives, before the empty case becomes absent.
pub open spec fn by_side(
    recs: Seq<TaxonomyView>,
    side: Side,
    key: Seq<char>,
    class: Option<Seq<char>>,
) -> Seq<TaxonomyView> {
    keep_class(bucket_of(recs, side, normalized(key)), class)
}

/// A present, non-empty result, or absent where `s` is empty.
pub open spec fn present(s: Seq<TaxonomyView>, r: Option<Vec<&Taxonomy>>) -> bool {
    match r {
        Some(v) => s.len() > 0 && ref_views(v@) == s,
        None => s.len() == 0,
    }
}

/// All rules that share one key on one side.
struct Bucket {
    key: String,
    items: Vec<Taxonomy>,
}

/// A catalogue: the rules indexed by credit category, by debit category and by group.
pub struct Taxonomies {
    credits: Vec<Bucket>,
    debits: Vec<Bucket>,
    classes: Vec<Bucket>,
    records: Ghost<Seq<TaxonomyView>>,
}

/// `bs` indexes `recs` on `side`: one bucket per key that occurs, each holding
/// the rules with that key in their order.
spec fn indexes(bs: Seq<Bucket>, recs: Seq<TaxonomyView>, side: Side) -> bool {
    &&& forall|i: int|
        0 <= i < bs.len() ==> record_views(#[trigger] bs[i].items@) == bucket_of(
            recs,
            side,
            bs[i].key@,
        )
    &&& forall|i: int, j: int|
        0 <= i < bs.len() && 0 <= j < bs.len() && i != j ==> #[trigger] bs[i].key@
            != #[trigger] bs[j].key@
    &&& forall|n: int|
        0 <= n < recs.len() ==> exists|i: int|
            0 <= i < bs.len() && #[trigger] bs[i].key@ == key_on(side, #[trigger] recs[n])
}

impl View for Taxonomies {
    type V = Seq<TaxonomyView>;

    closed spec fn view(&self) -> Seq<TaxonomyView> {
        self.records@
    }
}

proof fn lemma_no_bucket_empty(bs: Seq<Bucket>, recs: Seq<TaxonomyView>, side: Side, k: Seq<char>)
    requires
        indexes(bs, recs, side),
        forall|i: int| 0 <= i < bs.len() ==> (#[trigger] bs[i]).key@ != k,
    ensures
        bucket_of(recs, side, k).len() == 0,
{
    assert forall|n: int| 0 <= n < recs.len() implies !keyed(side, k)(recs[n]) by {
        let i = choose|i: int| 0 <= i < bs.len() && #[trigger] bs[i].key@ == key_on(side, recs[n]);
        assert(bs[i].key@ != k);
    }
    recs.lemma_all_neg_filter_empty(keyed(side, k));
}

/// The position of the bucket with key `key`, if there is one.
fn find_bucket(bs: &Vec<Bucket>, key: &String) -> (r: Option<usize>)
    ensures
        match r {
            Some(i) => i < bs@.len() && bs@[i as int].key@ == key@,
            None => forall|i: int| 0 <= i < bs@.len() ==> (#[trigger] bs@[i]).key@ != key@,
        },
{
    let mut i: usize = 0;
    while i < bs.len()
        invariant
            i <= bs@.len(),
            forall|j: int| 0 <= j < i ==> (#[trigger] bs@[j]).key@ != key@,
        decreases bs@.len() - i,
    {
        if bs[i].key == *key {
            return Some(i);
        }
        i = i + 1;
    }
    None
}

/// Appends to `out` the rules of `items` that pass the group filter, in order.
fn collect_into<'a>(items: &'a Vec<Taxonomy>, class: &Option<String>, out: &mut Vec<&'a Taxonomy>)
    ensures
        ref_views(final(out)@) == ref_views(old(out)@) + keep_class(
            record_views(items@),
            match class {
                Some(c) => Some(c@),
                None => None,
            },
        ),
{
    let ghost c = match class {
        Some(c) => Some(c@),
        None => None,
    };
    let ghost start = ref_views(out@);
    let mut i: usize = 0;
    while i < items.len()
        invariant
            i <= items@.len(),
            c == match class {
                Some(cs) => Some(cs@),
                None => None::<Seq<char>>,
            },
            ref_views(out@) == start + keep_class(record_views(items@.take(i as int)), c),
        decreases items@.len() - i,
    {
        let t = &items[i];
        let keep = match class {
            Some(c) => t.class == *c,
            None => true,
        };
        proof {
            assert(items@.take(i + 1) == items@.take(i as int).push(items@[i as int]));
            assert(record_views(items@.take(i + 1)) == record_views(items@.take(i as int)).push(
                items@[i as int]@,
            ));
            match class {
                Some(cs) => {
                    record_views(items@.take(i as int)).lemma_filter_push(t@, in_class(cs@));
                    assert(in_class(cs@)(t@) == keep);
                },
                None => {},
            }
        }
        let ghost before = out@;
        let ghost done = keep_class(record_views(items@.take(i as int)), c);
        let ghost prev = record_views(items@.take(i as int));
        assert(record_views(items@.take(i + 1)) == prev.push(t@));
        if keep {
            out.push(t);
            assert(ref_views(out@) == ref_views(before).push(t@));
            assert(keep_class(record_views(items@.take(i + 1)), c) == done.push(t@));
            assert(start + done.push(t@) == (start + done).push(t@));
        } else {
            assert(keep_class(record_views(items@.take(i + 1)), c) == done);
        }
        i = i + 1;
    }
    assert(items@.take(items@.len() as int) == items@);
}

/// Adds a rule to the bucket for its key on `side`, opening one if the key is new.
fn add_to_index(bs: &mut Vec<Bucket>, t: Taxonomy, side: Side, Ghost(recs): Ghost<Seq<TaxonomyView>>)
    requires
        indexes(old(bs)@, recs, side),
    ensures
        indexes(final(bs)@, recs.push(t@), side),
{
    let key = match side {
        Side::Credit => t.credit.clone(),
        Side::Debit => t.debit.clone(),
        Side::Class => t.class.clone(),
    };
    let ghost tv = t@;
    let ghost new_recs = recs.push(tv);
    assert forall|k: Seq<char>| #[trigger] bucket_of(new_recs, side, k) == if key_on(side, tv) == k {
        bucket_of(recs, side, k).push(tv)
    } else {
        bucket_of(recs, side, k)
    } by {
        recs.lemma_filter_push(tv, keyed(side, k));
    }
    match find_bucket(bs, &key) {
        Some(i) => {
            let ghost old_bs = bs@;
            let ghost old_items = bs@[i as int].items@;
            bs[i].items.push(t);
            assert(record_views(bs@[i as int].items@) == record_views(old_items).push(tv));
            assert forall|j: int| 0 <= j < bs@.len() && j != i implies #[trigger] bs@[j] == old_bs[j] by {}
            assert forall|j: int| 0 <= j < bs@.len() implies record_views(#[trigger] bs@[j].items@)
                == bucket_of(new_recs, side, bs@[j].key@) by {
                assert(bucket_of(new_recs, side, bs@[j].key@) == bucket_of(new_recs, side, old_bs[j].key@));
                if j != i {
                    assert(old_bs[j].key@ != old_bs[i as int].key@);
                }
            }
            assert forall|a: int, b: int|
                0 <= a < bs@.len() && 0 <= b < bs@.len() && a != b implies #[trigger] bs@[a].key@
                    != #[trigger] bs@[b].key@ by {
                assert(bs@[a].key@ == old_bs[a].key@);
                assert(bs@[b].key@ == old_bs[b].key@);
            }
            assert forall|n: int| 0 <= n < new_recs.len() implies exists|j: int|
                0 <= j < bs@.len() && #[trigger] bs@[j].key@ == key_on(side, #[trigger] new_recs[n]) by {
                if n < recs.len() {
                    assert(new_recs[n] == recs[n]);
                    let j = choose|j: int| 0 <= j < old_bs.len() && #[trigger] old_bs[j].key@ == key_on(side, recs[n]);
                    assert(bs@[j].key@ == old_bs[j].key@);
                } else {
                    assert(bs@[i as int].key@ == key_on(side, new_recs[n]));
                }
            }
            assert(indexes(bs@, new_recs, side));
        },
        None => {
            let ghost old_bs = bs@;
            proof {
                lemma_no_bucket_empty(old_bs, recs, side, key@);
            }
            let mut items: Vec<Taxonomy> = Vec::new();
            items.push(t);
            assert(record_views(items@) == seq![tv]);
            assert(bucket_of(recs, side, key@) == Seq::<TaxonomyView>::empty());
            bs.push(Bucket { key, items });
            assert forall|j: int| 0 <= j < bs@.len() implies record_views(#[trigger] bs@[j].items@)
                == bucket_of(new_recs, side, bs@[j].key@) by {
                if j < old_bs.len() {
                    assert(bs@[j] == old_bs[j]);
                    assert(old_bs[j].key@ != key_on(side, tv));
                } else {
                    assert(bucket_of(new_recs, side, bs@[j].key@) == seq![tv]);
                }
            }
            assert forall|a: int, b: int|
                0 <= a < bs@.len() && 0 <= b < bs@.len() && a != b implies #[trigger] bs@[a].key@
                    != #[trigger] bs@[b].key@ by {
                if a < old_bs.len() && b < old_bs.len() {
                    assert(bs@[a] == old_bs[a]);
                    assert(bs@[b] == old_bs[b]);
                } else if a < old_bs.len() {
                    assert(bs@[a] == old_bs[a]);
                } else if b < old_bs.len() {
                    assert(bs@[b] == old_bs[b]);
                }
            }
            assert forall|n: int| 0 <= n < new_recs.len() implies exists|j: int|
                0 <= j < bs@.len() && #[trigger] bs@[j].key@ == key_on(side, #[trigger] new_recs[n]) by {
                if n < recs.len() {
                    assert(new_recs[n] == recs[n]);
                    let j = choose|j: int| 0 <= j < old_bs.len() && #[trigger] old_bs[j].key@ == key_on(side, recs[n]);
                    assert(bs@[j] == old_bs[j]);
                } else {
                    assert(bs@[old_bs.len() as int].key@ == key_on(side, new_recs[n]));
                }
            }
            assert(bs@[old_bs.len() as int].key@ == key_on(side, tv));
            assert(indexes(bs@, new_recs, side));
        },
    }
}

fn lookup<'a>(bs: &'a Vec<Bucket>, key: &String, class: &Option<String>, out: &mut Vec<&'a Taxonomy>, Ghost(recs): Ghost<Seq<TaxonomyView>>, Ghost(side): Ghost<Side>)
    requires
        indexes(bs@, recs, side),
    ensures
        ref_views(final(out)@) == ref_views(old(out)@) + keep_class(
            bucket_of(recs, side, key@),
            match class {
                Some(c) => Some(c@),
                None => None,
            },
        ),
{
    match find_bucket(bs, key) {
        Some(i) => {
            collect_into(&bs[i].items, class, out);
        },
        None => {
            proof {
                lemma_no_bucket_empty(bs@, recs, side, key@);
                let c = match class {
                    Some(c) => Some(c@),
                    None => None::<Seq<char>>,
                };
                assert(bucket_of(recs, side, key@) =~= Seq::<TaxonomyView>::empty());
                if let Some(cc) = c {
                    Seq::<TaxonomyView>::empty().lemma_filter_len(in_class(cc));
                }
                assert(ref_views(out@) == ref_views(out@) + Seq::<TaxonomyView>::empty());
            }
        },
    }
}

fn normalize_class(class: Option<&str>) -> (r: Option<String>)
    ensures
        match r {
            Some(c) => class_key(class) == Some(c@),
            None => class_key(class) == None::<Seq<char>>,
        },
{
    match class {
        Some(c) => Some(normalize(c)),
        None => None,
    }
}

impl Taxonomies {
    /// The three indices agree with the rules the catalogue was built from.
    pub closed spec fn wf(&self) -> bool {
        &&& indexes(self.credits@, self.records@, Side::Credit)
        &&& indexes(self.debits@, self.records@, Side::Debit)
        &&& indexes(self.classes@, self.records@, Side::Class)
    }

    /// Builds a catalogue in one pass: every rule is put in normal form and
    /// filed under its credit category, its debit category and its group.
    pub fn from_records(records: Vec<Taxonomy>) -> (r: Taxonomies)
        ensures
            r.wf(),
            r@ == normalized_records(record_views(records@)),
    {
        let mut credits: Vec<Bucket> = Vec::new();
        let mut debits: Vec<Bucket> = Vec::new();
        let mut classes: Vec<Bucket> = Vec::new();
        let ghost mut done: Seq<TaxonomyView> = Seq::empty();
        let mut i: usize = 0;
        while i < records.len()
            invariant
                i <= records@.len(),
                done == normalized_records(record_views(records@.take(i as int))),
                indexes(credits@, done, Side::Credit),
                indexes(debits@, done, Side::Debit),
                indexes(classes@, done, Side::Class),
            decreases records@.len() - i,
        {
            let t = records[i].normalized();
            proof {
                assert(records@.take(i + 1) == records@.take(i as int).push(records@[i as int]));
                assert(record_views(records@.take(i + 1)) == record_views(records@.take(i as int)).push(records@[i as int]@));
                assert(normalized_records(record_views(records@.take(i + 1))) == done.push(t@));
            }
            add_to_index(&mut credits, t.duplicate(), Side::Credit, Ghost(done));
            add_to_index(&mut debits, t.duplicate(), Side::Debit, Ghost(done));
            add_to_index(&mut classes, t, Side::Class, Ghost(done));
            proof {
                done = normalized_records(record_views(records@.take(i + 1)));
            }
            i = i + 1;
        }
        assert(records@.take(records@.len() as int) == records@);
        Taxonomies { credits, debits, classes, records: Ghost(done) }
    }

    /// The rules with credit category `dr`, then those with debit category `dr`,
    /// each side in input order; with a group, only the rules of that group.
    /// Key and group are compared in normal form; an unknown key gives an empty list.
    pub fn get_by_dr<'a>(&'a self, dr: &str, class: Option<&str>) -> (r: Vec<&'a Taxonomy>)
        requires
            self.wf(),
        ensures
            ref_views(r@) == by_direction(self@, dr@, class_key(class)),
    {
        let key = normalize(dr);
        let c = normalize_class(class);
        let mut out: Vec<&'a Taxonomy> = Vec::new();
        lookup(&self.credits, &key, &c, &mut out, Ghost(self.records@), Ghost(Side::Credit));
        lookup(&self.debits, &key, &c, &mut out, Ghost(self.records@), Ghost(Side::Debit));
        proof {
            let cr = bucket_of(self@, Side::Credit, key@);
            let db = bucket_of(self@, Side::Debit, key@);
            assert(ref_views(Seq::<&Taxonomy>::empty()) =~= Seq::<TaxonomyView>::empty());
            if let Some(cc) = class_key(class) {
                Seq::filter_distributes_over_add(cr, db, in_class(cc));
            }
        }
        out
    }

    fn side_lookup<'a>(&'a self, side: Side, dr: &str, class: Option<&str>) -> (r: Option<Vec<&'a Taxonomy>>)
        requires
            self.wf(),
        ensures
            present(by_side(self@, side, dr@, class_key(class)), r),
    {
        let key = normalize(dr);
        let c = normalize_class(class);
        let mut out: Vec<&'a Taxonomy> = Vec::new();
        let bs = match side {
            Side::Credit => &self.credits,
            Side::Debit => &self.debits,
            Side::Class => &self.classes,
        };
        lookup(bs, &key, &c, &mut out, Ghost(self.records@), Ghost(side));
        assert(ref_views(Seq::<&Taxonomy>::empty()) =~= Seq::<TaxonomyView>::empty());
        if out.len() == 0 {
            None
        } else {
            Some(out)
        }
    }

    /// The rules with credit category `dr`, in input order, restricted to the
    /// group if one is given; absent where none remains.
    pub fn get_credits_by_dr<'a>(&'a self, dr: &str, class: Option<&str>) -> (r: Option<Vec<&'a Taxonomy>>)
        requires
            self.wf(),
        ensures
            present(by_side(self@, Side::Credit, dr@, class_key(class)), r),
    {
        self.side_lookup(Side::Credit, dr, class)
    }

    /// The rules with debit category `dr`, in input order, restricted to the
    /// group if one is given; absent where none remains.
    pub fn get_debits_by_dr<'a>(&'a self, dr: &str, class: Option<&str>) -> (r: Option<Vec<&'a Taxonomy>>)
        requires
            self.wf(),
        ensures
            present(by_side(self@, Side::Debit, dr@, class_key(class)), r),
    {
        self.side_lookup(Side::Debit, dr, class)
    }

    /// The rules of group `class`, in input order; absent where there are none.
    pub fn get_by_class<'a>(&'a self, class: &str) -> (r: Option<Vec<&'a Taxonomy>>)
        requires
            self.wf(),
        ensures
            present(by_side(self@, Side::Class, class@, None), r),
    {
        self.side_lookup(Side::Class, class, None)
    }
}

/// Where the rule at index `i` passes `pred`, it stands in `s.filter(pred)` at the
/// number of earlier rules that pass.
proof fn lemma_filter_position(s: Seq<TaxonomyView>, pred: spec_fn(TaxonomyView) -> bool, i: int)
    requires
        0 <= i < s.len(),
        pred(s[i]),
    ensures
        s.take(i).filter(pred).len() < s.filter(pred).len(),
        s.filter(pred)[s.take(i).filter(pred).len() as int] == s[i],
{
    assert(s.take(i + 1) == s.take(i).push(s[i]));
    s.take(i).lemma_filter_push(s[i], pred);
    assert(s == s.take(i + 1) + s.skip(i + 1));
    Seq::filter_distributes_over_add(s.take(i + 1), s.skip(i + 1), pred);
}

/// Rules that pass `pred` keep their relative order in `s.filter(pred)`.
proof fn lemma_filter_keeps_order(s: Seq<TaxonomyView>, pred: spec_fn(TaxonomyView) -> bool, i: int, j: int)
    requires
        0 <= i < j < s.len(),
        pred(s[i]),
        pred(s[j]),
    ensures
        s.take(i).filter(pred).len() < s.take(j).filter(pred).len(),
{
    assert(s.take(i + 1) == s.take(i).push(s[i]));
    s.take(i).lemma_filter_push(s[i], pred);
    assert(s.take(j) == s.take(i + 1) + s.subrange(i + 1, j));
    Seq::filter_distributes_over_add(s.take(i + 1), s.subrange(i + 1, j), pred);
}

/// A lookup sees the key only through its normal form: keys that differ in case
/// or in surrounding whitespace give the same rules, in the same order.
pub proof fn lemma_lookup_by_normal_form(
    recs: Seq<TaxonomyView>,
    k1: Seq<char>,
    k2: Seq<char>,
    class: Option<Seq<char>>,
)
    requires
        normalized(k1) == normalized(k2),
    ensures
        by_direction(recs, k1, class) == by_direction(recs, k2, class),
        forall|side: Side| by_side(recs, side, k1, class) == #[trigger] by_side(recs, side, k2, class),
{
}

/// A lookup by direction without a group keeps input order: two rules with the
/// same credit category come out in the order they were loaded, ahead of every
/// rule that matches by debit category.
pub proof fn lemma_direction_keeps_order(recs: Seq<TaxonomyView>, key: Seq<char>, i: int, j: int)
    requires
        0 <= i < recs.len(),
        0 <= j < recs.len(),
        recs[i].credit == normalized(key),
    ensures
        i < j && recs[j].credit == normalized(key) ==> exists|p: int, q: int|
            0 <= p < q < bucket_of(recs, Side::Credit, normalized(key)).len()
                && #[trigger] by_direction(recs, key, None)[p] == recs[i]
                && #[trigger] by_direction(recs, key, None)[q] == recs[j],
        recs[j].debit == normalized(key) ==> exists|p: int, q: int|
            0 <= p < q < by_direction(recs, key, None).len()
                && #[trigger] by_direction(recs, key, None)[p] == recs[i]
                && #[trigger] by_direction(recs, key, None)[q] == recs[j],
{
    let k = normalized(key);
    let cp = keyed(Side::Credit, k);
    let dp = keyed(Side::Debit, k);
    let cr = recs.filter(cp);
    let db = recs.filter(dp);
    let all = by_direction(recs, key, None);
    assert(all == cr + db);
    lemma_filter_position(recs, cp, i);
    let p = recs.take(i).filter(cp).len() as int;
    assert(all[p] == recs[i]);
    if i < j && recs[j].credit == k {
        lemma_filter_position(recs, cp, j);
        lemma_filter_keeps_order(recs, cp, i, j);
        let q = recs.take(j).filter(cp).len() as int;
        assert(all[q] == recs[j]);
    }
    if recs[j].debit == k {
        lemma_filter_position(recs, dp, j);
        let q = (cr.len() + recs.take(j).filter(dp).len()) as int;
        assert(all[q] == recs[j]);
    }
}

/// With a group filter, every rule returned belongs to the group in normal form.
pub proof fn lemma_group_filter_sound(recs: Seq<TaxonomyView>, key: Seq<char>, class: Seq<char>)
    ensures
        forall|n: int|
            0 <= n < by_direction(recs, key, Some(normalized(class))).len() ==> (#[trigger] by_direction(
                recs,
                key,
                Some(normalized(class)),
            )[n]).class == normalized(class),
        forall|side: Side, n: int|
            0 <= n < by_side(recs, side, key, Some(normalized(class))).len() ==> (#[trigger] by_side(
                recs,
                side,
                key,
                Some(normalized(class)),
            )[n]).class == normalized(class),
{
    let c = normalized(class);
    let k = normalized(key);
    assert forall|n: int|
        0 <= n < by_direction(recs, key, Some(c)).len() implies (#[trigger] by_direction(
            recs,
            key,
            Some(c),
        )[n]).class == c by {
        let s = bucket_of(recs, Side::Credit, k) + bucket_of(recs, Side::Debit, k);
        s.lemma_filter_pred(in_class(c), n);
    }
    assert forall|side: Side, n: int|
        0 <= n < by_side(recs, side, key, Some(c)).len() implies (#[trigger] by_side(
            recs,
            side,
            key,
            Some(c),
        )[n]).class == c by {
        bucket_of(recs, side, k).lemma_filter_pred(in_class(c), n);
    }
}

/// A key that no rule carries gives an empty lookup by direction, and nothing on
/// either side, which the one-sided lookups report as absent.
pub proof fn lemma_unknown_key(recs: Seq<TaxonomyView>, key: Seq<char>, class: Option<Seq<char>>)
    requires
        forall|n: int|
            0 <= n < recs.len() ==> (#[trigger] recs[n]).credit != normalized(key)
                && recs[n].debit != normalized(key),
    ensures
        by_direction(recs, key, class).len() == 0,
        by_side(recs, Side::Credit, key, class).len() == 0,
        by_side(recs, Side::Debit, key, class).len() == 0,
{
    let k = normalized(key);
    recs.lemma_all_neg_filter_empty(keyed(Side::Credit, k));
    recs.lemma_all_neg_filter_empty(keyed(Side::Debit, k));
    let s = bucket_of(recs, Side::Credit, k) + bucket_of(recs, Side::Debit, k);
    assert(s.len() == 0);
    if let Some(c) = class {
        s.lemma_filter_len(in_class(c));
        bucket_of(recs, Side::Credit, k).lemma_filter_len(in_class(c));
        bucket_of(recs, Side::Debit, k).lemma_filter_len(in_class(c));
    }
}

} // verus!
