//! Field distribution: each parsed field is appended, in declaration order,
//! to exactly the variants its rule targets, and every field gets one
//! capability interface — implemented by the variants that own the field,
//! with its absence marker implemented by all the others.

use vstd::prelude::*;
use vstd::string::StringExecFns;

use crate::model::{Capability, FieldModel, FieldSpec, Variant, field_views, variant_names};
use crate::names::{pascal_of, snake_to_pascal};
use crate::registry::Registry;
use crate::rule::{FieldPlan, clone_strings, contains_text, names_not_in};

verus! {

broadcast use
    vstd::seq_lib::group_seq_properties,
    vstd::prelude::Seq::lemma_filter_map_take_succ,
;

/// The field a plan contributes to the variant named `n`: its field exactly
/// when `n` is among the plan's targets.
pub open spec fn plan_field_for(p: FieldPlan, n: Seq<char>) -> Option<FieldModel> {
    if p.targets.deep_view().contains(n) {
        Some(p.field@)
    } else {
        None
    }
}

/// The field list of the variant named `n`: the planned fields that target
/// it, in declaration order.
pub open spec fn fields_for_variant(plans: Seq<FieldPlan>, n: Seq<char>) -> Seq<FieldModel> {
    plans.filter_map(|p: FieldPlan| plan_field_for(p, n))
}

/// Copy a field, keeping its view.
pub fn clone_field(f: &FieldSpec) -> (r: FieldSpec)
    ensures
        r@ == f@,
{
    FieldSpec {
        name: f.name.clone(),
        ty: f.ty.clone(),
        decorations: clone_strings(&f.decorations),
        default: f.default,
    }
}

/// Whether some field in the list bears the name `n`.
#[verifier::loop_isolation(false)]
pub fn has_field_named(fields: &Vec<FieldSpec>, n: &str) -> (r: bool)
    ensures
        r == crate::model::field_names(field_views(fields@)).contains(n@),
{
    let ghost fns = crate::model::field_names(field_views(fields@));
    let mut i: usize = 0;
    while i < fields.len()
        invariant
            i <= fields.len(),
            forall|j: int| 0 <= j < i ==> fns[j] != n@,
        decreases fields.len() - i,
    {
        if crate::names::str_eq(fields[i].name.as_str(), n) {
            assert(fns[i as int] == n@);
            return true;
        }
        assert(fns[i as int] == fields@[i as int].name@);
        i = i + 1;
    }
    assert(forall|j: int| 0 <= j < fns.len() ==> fns[j] != n@);
    false
}

/// Append every planned field to the variants its rule targets. Names and
/// decorations are untouched; each variant's field list becomes exactly the
/// planned fields that target it, in declaration order.
#[verifier::loop_isolation(false)]
pub fn distribute(registry: &Registry, plans: &Vec<FieldPlan>) -> (r: Registry)
    ensures
        r.canonical@ == registry.canonical@,
        r.variants@.len() == registry.variants@.len(),
        variant_names(r.variants@) == variant_names(registry.variants@),
        r.wf() == registry.wf(),
        forall|k: int|
            0 <= k < r.variants@.len() ==> (#[trigger] r.variants@[k])@.decorations
                == registry.variants@[k]@.decorations,
        forall|k: int|
            0 <= k < r.variants@.len() ==> (#[trigger] r.variants@[k])@.fields == fields_for_variant(
                plans@,
                registry.variants@[k].name@,
            ),
{
    let mut variants: Vec<Variant> = Vec::new();
    let mut k: usize = 0;
    while k < registry.variants.len()
        invariant
            k <= registry.variants.len(),
            variants@.len() == k,
            forall|m: int|
                0 <= m < k ==> (#[trigger] variants@[m]).name@ == registry.variants@[m].name@,
            forall|m: int|
                0 <= m < k ==> (#[trigger] variants@[m])@.decorations
                    == registry.variants@[m]@.decorations,
            forall|m: int|
                0 <= m < k ==> (#[trigger] variants@[m])@.fields == fields_for_variant(
                    plans@,
                    registry.variants@[m].name@,
                ),
        decreases registry.variants.len() - k,
    {
        let v = &registry.variants[k];
        let mut fields: Vec<FieldSpec> = Vec::new();
        let mut j: usize = 0;
        proof {
            assert(plans@.take(0) =~= Seq::<FieldPlan>::empty());
            assert(field_views(fields@) =~= fields_for_variant(plans@.take(0), v.name@));
        }
        while j < plans.len()
            invariant
                j <= plans.len(),
                field_views(fields@) == fields_for_variant(plans@.take(j as int), v.name@),
            decreases plans.len() - j,
        {
            let ghost pre = field_views(fields@);
            let p = &plans[j];
            if contains_text(&p.targets, v.name.as_str()) {
                fields.push(clone_field(&p.field));
                assert(field_views(fields@) =~= pre.push(p.field@));
            }
            proof {
                assert(field_views(fields@) =~= fields_for_variant(
                    plans@.take(j + 1int),
                    v.name@,
                ));
            }
            j = j + 1;
        }
        proof {
            assert(plans@.take(plans.len() as int) =~= plans@);
        }
        variants.push(
            Variant { name: v.name.clone(), decorations: clone_strings(&v.decorations), fields },
        );
        k = k + 1;
    }
    proof {
        assert(variant_names(variants@) =~= variant_names(registry.variants@));
    }
    Registry { canonical: registry.canonical.clone(), variants }
}

/// Build one capability per planned field, in declaration order: the
/// interface and marker names derived from the field name, the variants that
/// implement the interface (the field's targets, in registry order), and
/// those that implement the absence marker (all the others).
#[verifier::loop_isolation(false)]
pub fn capabilities(plans: &Vec<FieldPlan>, names: &Vec<String>) -> (r: Vec<Capability>)
    ensures
        r@.len() == plans@.len(),
        forall|j: int|
            0 <= j < r@.len() ==> {
                let c = #[trigger] r@[j];
                let p = plans@[j];
                &&& c.field_name@ == p.field.name@
                &&& c.ty@ == p.field.ty@
                &&& c.trait_name@ == "Has"@ + pascal_of(p.field.name@)
                &&& c.neg_trait_name@ == "HasNo"@ + pascal_of(p.field.name@)
                &&& c.setter_name@ == "set_"@ + p.field.name@
                &&& c.implementors.deep_view() == p.targets.deep_view()
                &&& c.absentees.deep_view() == names_not_in(
                    names.deep_view(),
                    p.targets.deep_view(),
                )
            },
{
    let mut r: Vec<Capability> = Vec::new();
    let mut j: usize = 0;
    while j < plans.len()
        invariant
            j <= plans.len(),
            r@.len() == j,
            forall|m: int|
                0 <= m < j ==> {
                    let c = #[trigger] r@[m];
                    let p = plans@[m];
                    &&& c.field_name@ == p.field.name@
                    &&& c.ty@ == p.field.ty@
                    &&& c.trait_name@ == "Has"@ + pascal_of(p.field.name@)
                    &&& c.neg_trait_name@ == "HasNo"@ + pascal_of(p.field.name@)
                    &&& c.setter_name@ == "set_"@ + p.field.name@
                    &&& c.implementors.deep_view() == p.targets.deep_view()
                    &&& c.absentees.deep_view() == names_not_in(
                        names.deep_view(),
                        p.targets.deep_view(),
                    )
                },
        decreases plans.len() - j,
    {
        let p = &plans[j];
        let pascal = snake_to_pascal(p.field.name.as_str());
        let trait_name = "Has".to_owned().concat(pascal.as_str());
        let neg_trait_name = "HasNo".to_owned().concat(pascal.as_str());
        let setter_name = "set_".to_owned().concat(p.field.name.as_str());
        let mut absentees: Vec<String> = Vec::new();
        let mut m: usize = 0;
        proof {
            assert(names.deep_view().take(0) =~= Seq::<Seq<char>>::empty());
            assert(absentees.deep_view() =~= names_not_in(
                names.deep_view().take(0),
                p.targets.deep_view(),
            ));
        }
        while m < names.len()
            invariant
                m <= names.len(),
                absentees.deep_view() == names_not_in(
                    names.deep_view().take(m as int),
                    p.targets.deep_view(),
                ),
            decreases names.len() - m,
        {
            let ghost pre = absentees.deep_view();
            if !contains_text(&p.targets, names[m].as_str()) {
                absentees.push(names[m].clone());
                assert(absentees.deep_view() =~= pre.push(names.deep_view()[m as int]));
            }
            proof {
                assert(absentees.deep_view() =~= names_not_in(
                    names.deep_view().take(m + 1int),
                    p.targets.deep_view(),
                ));
            }
            m = m + 1;
        }
        proof {
            assert(names.deep_view().take(names.len() as int) =~= names.deep_view());
        }
        let c = Capability {
            field_name: p.field.name.clone(),
            ty: p.field.ty.clone(),
            trait_name,
            neg_trait_name,
            setter_name,
            implementors: clone_strings(&p.targets),
            absentees,
        };
        r.push(c);
        j = j + 1;
    }
    r
}

} // verus!
