//! The library's general laws, proved once and for all over any successful
//! derivation.

use vstd::prelude::*;

use crate::convert::{common_with, missing_from, names_of, pair_index, pair_ok, required_of};
use crate::derive::{capability_ok, derivation_ok, spec_plan_for, spec_variant_fields};
use crate::model::{CanonicalRecord, Derivation, FieldInput, FieldModel, field_names};
use crate::registry::{lemma_registry_names, registry_names};
use crate::rule::{SelModel, names_in, names_not_in, resolve_targets, rule_of};

verus! {

broadcast use vstd::seq_lib::group_seq_properties;

/// The names of the canonical record's fields, in declaration order.
pub open spec fn input_names(fields: Seq<FieldInput>) -> Seq<Seq<char>> {
    fields.map_values(|fi: FieldInput| fi.name@)
}

/// Membership in the kept-names filter: a name is kept exactly when it is
/// declared and on the list.
proof fn lemma_names_in_membership(names: Seq<Seq<char>>, l: Seq<Seq<char>>)
    ensures
        forall|x: Seq<char>|
            #[trigger] names_in(names, l).contains(x) <==> (names.contains(x) && l.contains(x)),
    decreases names.len(),
{
    if names.len() > 0 {
        let rest = names.drop_last();
        lemma_names_in_membership(rest, l);
        assert forall|x: Seq<char>|
            #[trigger] names_in(names, l).contains(x) <==> (names.contains(x) && l.contains(x)) by {
            if l.contains(names.last()) {
                assert(names_in(names, l) == names_in(rest, l) + seq![names.last()]);
            } else {
                assert(names_in(names, l) == names_in(rest, l));
            }
            if names.contains(x) && l.contains(x) {
                if x != names.last() {
                    let i = choose|i: int| 0 <= i < names.len() && names[i] == x;
                    assert(rest[i] == x);
                    assert(rest.contains(x));
                }
            }
            if names_in(names, l).contains(x) {
                if names_in(rest, l).contains(x) {
                    let i = choose|i: int| 0 <= i < rest.len() && rest[i] == x;
                    assert(names[i] == x);
                }
            }
        }
    }
}

/// Membership in the dropped-names filter.
proof fn lemma_names_not_in_membership(names: Seq<Seq<char>>, l: Seq<Seq<char>>)
    ensures
        forall|x: Seq<char>|
            #[trigger] names_not_in(names, l).contains(x) <==> (names.contains(x) && !l.contains(
                x,
            )),
    decreases names.len(),
{
    if names.len() > 0 {
        let rest = names.drop_last();
        lemma_names_not_in_membership(rest, l);
        assert forall|x: Seq<char>|
            #[trigger] names_not_in(names, l).contains(x) <==> (names.contains(x) && !l.contains(
                x,
            )) by {
            if !l.contains(names.last()) {
                assert(names_not_in(names, l) == names_not_in(rest, l) + seq![names.last()]);
            } else {
                assert(names_not_in(names, l) == names_not_in(rest, l));
            }
            if names.contains(x) && !l.contains(x) {
                if x != names.last() {
                    let i = choose|i: int| 0 <= i < names.len() && names[i] == x;
                    assert(rest[i] == x);
                    assert(rest.contains(x));
                }
            }
            if names_not_in(names, l).contains(x) {
                if names_not_in(rest, l).contains(x) {
                    let i = choose|i: int| 0 <= i < rest.len() && rest[i] == x;
                    assert(names[i] == x);
                }
            }
        }
    }
}

/// A resolved target set only holds registry names.
proof fn lemma_targets_subset(sel: Option<SelModel>, rn: Seq<Seq<char>>, canonical: Seq<char>)
    requires
        rn.contains(canonical),
    ensures
        forall|x: Seq<char>|
            #[trigger] resolve_targets(sel, rn, canonical).contains(x) ==> rn.contains(x),
{
    match sel {
        None => {},
        Some(SelModel::SelfOnly) => {
            assert forall|x: Seq<char>|
                #[trigger] resolve_targets(sel, rn, canonical).contains(x) implies rn.contains(
                x,
            ) by {
                assert(x == canonical);
            }
        },
        Some(SelModel::Only(l)) => {
            lemma_names_in_membership(rn, l);
        },
        Some(SelModel::Except(l)) => {
            lemma_names_not_in_membership(rn, l);
        },
    }
}

/// Field coverage: for every field, the variants implementing its
/// capability interface and those implementing its absence marker together
/// are exactly the full variant set, with no variant in both lists.
pub proof fn lemma_field_coverage(d: Derivation, input: CanonicalRecord, j: int)
    requires
        derivation_ok(d, input),
        0 <= j < d.capabilities@.len(),
    ensures
        ({
            let rn = registry_names(input.variants.deep_view(), input.name@);
            let c = d.capabilities@[j];
            &&& forall|nm: Seq<char>|
                #[trigger] rn.contains(nm) <==> (c.implementors.deep_view().contains(nm)
                    || c.absentees.deep_view().contains(nm))
            &&& forall|nm: Seq<char>|
                !(#[trigger] c.implementors.deep_view().contains(nm)
                    && c.absentees.deep_view().contains(nm))
        }),
{
    let rn = registry_names(input.variants.deep_view(), input.name@);
    let c = d.capabilities@[j];
    assert(capability_ok(c, input.fields@[j], rn, input.name@));
    let rm = rule_of(input.fields@[j], rn)->Ok_0;
    let targets = resolve_targets(rm.sel, rn, input.name@);
    lemma_registry_names(input.variants.deep_view(), input.name@);
    lemma_targets_subset(rm.sel, rn, input.name@);
    lemma_names_not_in_membership(rn, targets);
}

/// A name sequence `a` is a subsequence of `b`: it can be read off `b` in
/// order by skipping elements.
pub open spec fn is_subseq_of(a: Seq<Seq<char>>, b: Seq<Seq<char>>) -> bool
    decreases b.len(),
{
    if a.len() == 0 {
        true
    } else if b.len() == 0 {
        false
    } else if a.last() == b.last() {
        is_subseq_of(a.drop_last(), b.drop_last())
    } else {
        is_subseq_of(a, b.drop_last())
    }
}

/// A subsequence stays one after dropping its last element.
proof fn lemma_subseq_drop(a: Seq<Seq<char>>, b: Seq<Seq<char>>)
    requires
        is_subseq_of(a, b),
        a.len() > 0,
    ensures
        is_subseq_of(a.drop_last(), b),
    decreases b.len(),
{
    if b.len() > 0 {
        if a.last() == b.last() {
            if a.drop_last().len() > 0 {
                if a.drop_last().last() == b.last() {
                    lemma_subseq_drop(a.drop_last(), b.drop_last());
                }
            }
        } else {
            lemma_subseq_drop(a, b.drop_last());
            if a.drop_last().len() > 0 {
                if a.drop_last().last() == b.last() {
                    lemma_subseq_drop(a.drop_last(), b.drop_last());
                }
            }
        }
    }
}

proof fn lemma_variant_fields_subseq(
    fields: Seq<FieldInput>,
    rn: Seq<Seq<char>>,
    canonical: Seq<char>,
    nm: Seq<char>,
)
    ensures
        is_subseq_of(
            field_names(spec_variant_fields(fields, rn, canonical, nm)),
            input_names(fields),
        ),
    decreases fields.len(),
{
    if fields.len() > 0 {
        let rest = fields.drop_last();
        lemma_variant_fields_subseq(rest, rn, canonical, nm);
        let kept = spec_variant_fields(rest, rn, canonical, nm);
        let b = input_names(fields);
        assert(b.drop_last() =~= input_names(rest));
        assert(b.last() == fields.last().name@);
        match spec_plan_for(fields.last(), rn, canonical, nm) {
            Some(fm) => {
                assert(spec_variant_fields(fields, rn, canonical, nm) == kept + seq![fm]);
                let a = field_names(kept + seq![fm]);
                assert(a =~= field_names(kept).push(fm.name));
                assert(a.drop_last() =~= field_names(kept));
                assert(a.last() == fm.name);
                assert(fm.name == fields.last().name@);
            },
            None => {
                assert(spec_variant_fields(fields, rn, canonical, nm) == kept);
                let a = field_names(kept);
                if a.len() > 0 && a.last() == b.last() {
                    lemma_subseq_drop(a, input_names(rest));
                }
            },
        }
    } else {
        assert(field_names(spec_variant_fields(fields, rn, canonical, nm)).len() == 0);
    }
}

/// Order preservation: every variant's field order is a subsequence of the
/// canonical record's field declaration order.
pub proof fn lemma_order_preservation(d: Derivation, input: CanonicalRecord, k: int)
    requires
        derivation_ok(d, input),
        0 <= k < d.variants@.len(),
    ensures
        is_subseq_of(field_names(d.variants@[k]@.fields), input_names(input.fields@)),
{
    let rn = registry_names(input.variants.deep_view(), input.name@);
    lemma_variant_fields_subseq(input.fields@, rn, input.name@, rn[k]);
}

/// A required-field split is empty exactly when every field carries the
/// default flag.
proof fn lemma_required_empty(ms: Seq<FieldModel>)
    ensures
        required_of(ms).len() == 0 <==> (forall|i: int| 0 <= i < ms.len() ==> ms[i].default),
    decreases ms.len(),
{
    if ms.len() > 0 {
        lemma_required_empty(ms.drop_last());
        if !ms.last().default {
            assert(!ms[ms.len() - 1].default);
        }
        assert(forall|i: int| 0 <= i < ms.len() - 1 ==> ms.drop_last()[i] == ms[i]);
    }
}

/// Membership of the common-field names: a name is copied between two field
/// lists exactly when both lists have it.
proof fn lemma_common_names(a: Seq<FieldModel>, b: Seq<FieldModel>)
    ensures
        forall|nm: Seq<char>|
            #[trigger] names_of(common_with(a, b)).contains(nm) <==> (field_names(a).contains(nm)
                && field_names(b).contains(nm)),
    decreases a.len(),
{
    if a.len() > 0 {
        let rest = a.drop_last();
        let f = a.last();
        lemma_common_names(rest, b);
        assert(field_names(a).drop_last() =~= field_names(rest));
        assert(field_names(a).last() == f.name);
        assert forall|nm: Seq<char>|
            #[trigger] names_of(common_with(a, b)).contains(nm) <==> (field_names(a).contains(nm)
                && field_names(b).contains(nm)) by {
            if field_names(b).contains(f.name) {
                assert(common_with(a, b) == common_with(rest, b) + seq![f]);
                assert(names_of(common_with(rest, b) + seq![f]) =~= names_of(
                    common_with(rest, b),
                ).push(f.name));
            } else {
                assert(common_with(a, b) == common_with(rest, b));
            }
            if field_names(a).contains(nm) && field_names(b).contains(nm) {
                if nm != f.name {
                    let i = choose|i: int| 0 <= i < field_names(a).len() && field_names(a)[i] == nm;
                    assert(field_names(rest)[i] == nm);
                }
            }
            if names_of(common_with(rest, b)).contains(nm) {
                assert(field_names(rest).contains(nm));
                let i = choose|i: int|
                    0 <= i < field_names(rest).len() && field_names(rest)[i] == nm;
                assert(field_names(a)[i] == nm);
            }
        }
    }
}

/// Membership of the missing-field names: a name is missing from `b`
/// exactly when `a` has it and `b` does not.
proof fn lemma_missing_names(a: Seq<FieldModel>, b: Seq<FieldModel>)
    ensures
        forall|nm: Seq<char>|
            #[trigger] names_of(missing_from(a, b)).contains(nm) <==> (field_names(a).contains(nm)
                && !field_names(b).contains(nm)),
    decreases a.len(),
{
    if a.len() > 0 {
        let rest = a.drop_last();
        let f = a.last();
        lemma_missing_names(rest, b);
        assert(field_names(a).drop_last() =~= field_names(rest));
        assert(field_names(a).last() == f.name);
        assert forall|nm: Seq<char>|
            #[trigger] names_of(missing_from(a, b)).contains(nm) <==> (field_names(a).contains(nm)
                && !field_names(b).contains(nm)) by {
            if !field_names(b).contains(f.name) {
                assert(missing_from(a, b) == missing_from(rest, b) + seq![f]);
                assert(names_of(missing_from(rest, b) + seq![f]) =~= names_of(
                    missing_from(rest, b),
                ).push(f.name));
            } else {
                assert(missing_from(a, b) == missing_from(rest, b));
            }
            if field_names(a).contains(nm) && !field_names(b).contains(nm) {
                if nm != f.name {
                    let i = choose|i: int| 0 <= i < field_names(a).len() && field_names(a)[i] == nm;
                    assert(field_names(rest)[i] == nm);
                }
            }
            if names_of(missing_from(rest, b)).contains(nm) {
                assert(field_names(rest).contains(nm));
                let i = choose|i: int|
                    0 <= i < field_names(rest).len() && field_names(rest)[i] == nm;
                assert(field_names(a)[i] == nm);
            }
        }
    }
}

/// Conversion totality: between distinct variants, the unconditional
/// source-to-target conversion exists exactly when every field the target
/// has and the source lacks carries the default flag.
pub proof fn lemma_conversion_totality(d: Derivation, input: CanonicalRecord, ti: int, si: int)
    requires
        derivation_ok(d, input),
        0 <= ti < d.variants@.len(),
        0 <= si < d.variants@.len(),
        ti != si,
    ensures
        ({
            let entry = d.conversions@[pair_index(ti, si, d.variants@.len() as int)];
            let miss = missing_from(d.variants@[ti]@.fields, d.variants@[si]@.fields);
            entry.from is Some <==> (forall|i: int| 0 <= i < miss.len() ==> miss[i].default)
        }),
{
    reveal(pair_ok);
    let entry = d.conversions@[pair_index(ti, si, d.variants@.len() as int)];
    let miss = missing_from(d.variants@[ti]@.fields, d.variants@[si]@.fields);
    assert(pair_ok(entry, d.variants@[ti]@, d.variants@[si]@));
    lemma_required_empty(miss);
}

/// Conversion coverage: whenever the target has fields the source lacks,
/// both named conversions exist — one taking every missing field as an
/// argument, one taking only the required ones — in canonical field order.
pub proof fn lemma_conversion_coverage(d: Derivation, input: CanonicalRecord, ti: int, si: int)
    requires
        derivation_ok(d, input),
        0 <= ti < d.variants@.len(),
        0 <= si < d.variants@.len(),
        ti != si,
    ensures
        ({
            let entry = d.conversions@[pair_index(ti, si, d.variants@.len() as int)];
            let miss = missing_from(d.variants@[ti]@.fields, d.variants@[si]@.fields);
            miss.len() > 0 ==> {
                &&& entry.into_all matches Some(m) && crate::model::field_views(m.args@) == miss
                &&& entry.into_defaults matches Some(m2) && crate::model::field_views(m2.args@)
                    == required_of(miss)
            }
        }),
{
    reveal(pair_ok);
    let entry = d.conversions@[pair_index(ti, si, d.variants@.len() as int)];
    assert(pair_ok(entry, d.variants@[ti]@, d.variants@[si]@));
}

/// Symmetry of the common-field copy: between any two variants, the two
/// opposite conversions copy exactly the same field names.
pub proof fn lemma_common_copy_symmetry(d: Derivation, input: CanonicalRecord, ti: int, si: int)
    requires
        derivation_ok(d, input),
        0 <= ti < d.variants@.len(),
        0 <= si < d.variants@.len(),
        ti != si,
    ensures
        ({
            let n = d.variants@.len() as int;
            let fwd = d.conversions@[pair_index(ti, si, n)];
            let bwd = d.conversions@[pair_index(si, ti, n)];
            (fwd.into_all is Some && bwd.into_all is Some) ==> forall|nm: Seq<char>| (
            #[trigger] fwd.into_all->Some_0.copied.deep_view().contains(nm))
                <==> bwd.into_all->Some_0.copied.deep_view().contains(nm)
        }),
{
    reveal(pair_ok);
    let n = d.variants@.len() as int;
    let fwd = d.conversions@[pair_index(ti, si, n)];
    let bwd = d.conversions@[pair_index(si, ti, n)];
    assert(pair_ok(fwd, d.variants@[ti]@, d.variants@[si]@));
    assert(pair_ok(bwd, d.variants@[si]@, d.variants@[ti]@));
    let tf = d.variants@[ti]@.fields;
    let sf = d.variants@[si]@.fields;
    lemma_common_names(tf, sf);
    lemma_common_names(sf, tf);
}

/// The value a conversion method gives each target field: copied fields
/// come from the source instance, defaulted fields from the fallback table,
/// and the rest from the explicit arguments.
pub open spec fn convert_instance<V>(
    m: crate::model::MethodConversion,
    src: Map<Seq<char>, V>,
    fallbacks: Map<Seq<char>, V>,
    args: Map<Seq<char>, V>,
    nm: Seq<char>,
) -> V {
    if m.copied.deep_view().contains(nm) {
        src[nm]
    } else if m.defaulted.deep_view().contains(nm) {
        fallbacks[nm]
    } else {
        args[nm]
    }
}

/// Round trip: when the target's fields are a superset of the source's and
/// everything extra carries the default flag, the defaults-favoring
/// conversion takes no arguments and carries every source field over
/// unchanged — projecting the result back onto the source's fields gives
/// back the source instance.
pub proof fn lemma_round_trip<V>(
    d: Derivation,
    input: CanonicalRecord,
    ti: int,
    si: int,
    src: Map<Seq<char>, V>,
    fallbacks: Map<Seq<char>, V>,
    args: Map<Seq<char>, V>,
)
    requires
        derivation_ok(d, input),
        0 <= ti < d.variants@.len(),
        0 <= si < d.variants@.len(),
        ti != si,
        // the target misses nothing of the source
        missing_from(d.variants@[si]@.fields, d.variants@[ti]@.fields).len() == 0,
        // whatever the target adds is default-flagged
        forall|i: int|
            0 <= i < missing_from(d.variants@[ti]@.fields, d.variants@[si]@.fields).len()
                ==> missing_from(d.variants@[ti]@.fields, d.variants@[si]@.fields)[i].default,
    ensures
        ({
            let entry = d.conversions@[pair_index(ti, si, d.variants@.len() as int)];
            entry.into_defaults matches Some(m) ==> {
                &&& m.args@.len() == 0
                &&& forall|nm: Seq<char>|
                    #[trigger] field_names(d.variants@[si]@.fields).contains(nm)
                        ==> convert_instance(m, src, fallbacks, args, nm) == src[nm]
            }
        }),
{
    reveal(pair_ok);
    let entry = d.conversions@[pair_index(ti, si, d.variants@.len() as int)];
    let tf = d.variants@[ti]@.fields;
    let sf = d.variants@[si]@.fields;
    let miss = missing_from(tf, sf);
    assert(pair_ok(entry, d.variants@[ti]@, d.variants@[si]@));
    if entry.into_defaults is Some {
        let m = entry.into_defaults->Some_0;
        lemma_required_empty(miss);
        assert(crate::model::field_views(m.args@).len() == 0);
        lemma_missing_names(sf, tf);
        lemma_common_names(tf, sf);
        assert forall|nm: Seq<char>| #[trigger] field_names(sf).contains(nm) implies
            convert_instance(m, src, fallbacks, args, nm) == src[nm] by {
            if !field_names(tf).contains(nm) {
                assert(names_of(missing_from(sf, tf)).contains(nm));
                assert(names_of(missing_from(sf, tf)).len() == 0);
            }
            assert(m.copied.deep_view().contains(nm));
        }
    }
}

} // verus!
