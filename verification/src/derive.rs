//! The whole derivation, end to end: build the registry, parse every
//! field's rule, distribute fields and capabilities, and synthesize the
//! conversions for every ordered pair of variants. The first offense aborts
//! the derivation with no output.

use vstd::prelude::*;

use crate::convert::{pair_index, pair_ok, synthesize_all};
use crate::distribute::{capabilities, distribute, fields_for_variant, plan_field_for};
use crate::model::{CanonicalRecord, Capability, Derivation, DeriveError, ErrModel, FieldInput,
    FieldModel, Variant, variant_names};
use crate::names::pascal_of;
use crate::registry::{build_registry, decorations_for, record_attrs_err, registry_names};
use crate::rule::{FieldPlan, RuleModel, names_not_in, parse_field, resolve_targets, rule_of};

verus! {

broadcast use vstd::seq_lib::group_seq_properties;

/// The first offense among the fields, in declaration order.
pub open spec fn fields_err(fields: Seq<FieldInput>, rn: Seq<Seq<char>>) -> Option<ErrModel>
    decreases fields.len(),
{
    if fields.len() == 0 {
        None
    } else {
        match rule_of(fields[0], rn) {
            Err(e) => Some(e),
            Ok(_) => fields_err(fields.skip(1), rn),
        }
    }
}

/// The first offense of a whole derivation: record-level annotations are
/// examined first, then the fields in declaration order.
pub open spec fn first_error(input: CanonicalRecord) -> Option<ErrModel> {
    let rn = registry_names(input.variants.deep_view(), input.name@);
    match record_attrs_err(input.attrs@, rn) {
        Some(e) => Some(e),
        None => fields_err(input.fields@, rn),
    }
}

/// Whether a plan is what parsing this field must produce.
pub open spec fn plan_matches(
    p: FieldPlan,
    fi: FieldInput,
    rn: Seq<Seq<char>>,
    canonical: Seq<char>,
) -> bool {
    match rule_of(fi, rn) {
        Ok(rm) => {
            &&& p.field@ == (FieldModel {
                name: fi.name@,
                ty: fi.ty@,
                decorations: rm.kept,
                default: rm.default,
            })
            &&& p.targets.deep_view() == resolve_targets(rm.sel, rn, canonical)
        },
        Err(_) => false,
    }
}

/// What a field contributes to the variant named `nm`, stated on the raw
/// input: its parsed form exactly when its resolved targets include `nm`.
pub open spec fn spec_plan_for(
    fi: FieldInput,
    rn: Seq<Seq<char>>,
    canonical: Seq<char>,
    nm: Seq<char>,
) -> Option<FieldModel> {
    match rule_of(fi, rn) {
        Ok(rm) => {
            let fm = FieldModel {
                name: fi.name@,
                ty: fi.ty@,
                decorations: rm.kept,
                default: rm.default,
            };
            if resolve_targets(rm.sel, rn, canonical).contains(nm) {
                Some(fm)
            } else {
                None
            }
        },
        Err(_) => None,
    }
}

/// The field list owed to the variant named `nm`: the fields whose rules
/// target it, in the canonical record's declaration order.
pub open spec fn spec_variant_fields(
    fields: Seq<FieldInput>,
    rn: Seq<Seq<char>>,
    canonical: Seq<char>,
    nm: Seq<char>,
) -> Seq<FieldModel> {
    fields.filter_map(|fi: FieldInput| spec_plan_for(fi, rn, canonical, nm))
}

/// What the capability of one field must say: names derived from the field
/// name, the implementors exactly the rule's resolved targets, the
/// absentees exactly the other registry names.
pub open spec fn capability_ok(
    c: Capability,
    fi: FieldInput,
    rn: Seq<Seq<char>>,
    canonical: Seq<char>,
) -> bool {
    match rule_of(fi, rn) {
        Ok(rm) => {
            let targets = resolve_targets(rm.sel, rn, canonical);
            &&& c.field_name@ == fi.name@
            &&& c.ty@ == fi.ty@
            &&& c.trait_name@ == "Has"@ + pascal_of(fi.name@)
            &&& c.neg_trait_name@ == "HasNo"@ + pascal_of(fi.name@)
            &&& c.setter_name@ == "set_"@ + fi.name@
            &&& c.implementors.deep_view() == targets
            &&& c.absentees.deep_view() == names_not_in(rn, targets)
        },
        Err(_) => false,
    }
}

/// Everything a successful derivation promises, stated on the raw input.
pub open spec fn derivation_ok(d: Derivation, input: CanonicalRecord) -> bool {
    let rn = registry_names(input.variants.deep_view(), input.name@);
    &&& d.canonical@ == input.name@
    &&& variant_names(d.variants@) == rn
    &&& rn.no_duplicates()
    &&& forall|k: int|
        0 <= k < d.variants@.len() ==> (#[trigger] d.variants@[k])@.decorations
            == decorations_for(input.attrs@, rn[k], input.name@)
    &&& forall|k: int|
        0 <= k < d.variants@.len() ==> (#[trigger] d.variants@[k])@.fields == spec_variant_fields(
            input.fields@,
            rn,
            input.name@,
            rn[k],
        )
    &&& d.capabilities@.len() == input.fields@.len()
    &&& forall|j: int|
        0 <= j < d.capabilities@.len() ==> capability_ok(
            #[trigger] d.capabilities@[j],
            input.fields@[j],
            rn,
            input.name@,
        )
    &&& d.conversions@.len() == d.variants@.len() * (d.variants@.len() - 1)
    &&& forall|a: int, b: int|
        #![trigger pair_index(a, b, d.variants@.len() as int)]
        0 <= a < d.variants@.len() && 0 <= b < d.variants@.len() && a != b ==> {
            &&& 0 <= pair_index(a, b, d.variants@.len() as int) < d.conversions@.len()
            &&& pair_ok(
                d.conversions@[pair_index(a, b, d.variants@.len() as int)],
                d.variants@[a]@,
                d.variants@[b]@,
            )
        }
}

/// Planned fields and raw fields that agree pointwise contribute the same
/// field list to any variant.
proof fn lemma_variant_fields(
    plans: Seq<FieldPlan>,
    fields: Seq<FieldInput>,
    rn: Seq<Seq<char>>,
    canonical: Seq<char>,
    nm: Seq<char>,
)
    requires
        plans.len() == fields.len(),
        forall|j: int| 0 <= j < plans.len() ==> plan_matches(#[trigger] plans[j], fields[j], rn, canonical),
    ensures
        fields_for_variant(plans, nm) == spec_variant_fields(fields, rn, canonical, nm),
    decreases plans.len(),
{
    if plans.len() > 0 {
        assert(plan_matches(plans[plans.len() - 1], fields[fields.len() - 1], rn, canonical));
        lemma_variant_fields(plans.drop_last(), fields.drop_last(), rn, canonical, nm);
        assert(plan_field_for(plans.last(), nm) == spec_plan_for(
            fields.last(),
            rn,
            canonical,
            nm,
        ));
    }
}

/// Run the whole derivation. It succeeds exactly when no annotation
/// offends; on success the output satisfies `derivation_ok`, and on failure
/// the error is the first offense in processing order.
#[verifier::loop_isolation(false)]
#[verifier::rlimit(100)]
pub fn derive_family(input: &CanonicalRecord) -> (r: Result<Derivation, DeriveError>)
    ensures
        r is Ok <==> first_error(*input) is None,
        r matches Ok(d) ==> derivation_ok(d, *input),
        r matches Err(e) ==> first_error(*input) == Some(e@),
{
    let ghost rn = registry_names(input.variants.deep_view(), input.name@);
    let reg = match build_registry(input) {
        Err(e) => {
            return Err(e);
        },
        Ok(reg) => reg,
    };
    // The registry names as a plain list, for rule validation.
    let mut names: Vec<String> = Vec::new();
    let mut k: usize = 0;
    proof {
        assert(names.deep_view() =~= variant_names(reg.variants@).take(0));
    }
    while k < reg.variants.len()
        invariant
            k <= reg.variants.len(),
            names.deep_view() == variant_names(reg.variants@).take(k as int),
        decreases reg.variants.len() - k,
    {
        let ghost pre = names.deep_view();
        names.push(reg.variants[k].name.clone());
        proof {
            assert(names.deep_view() =~= pre.push(reg.variants@[k as int].name@));
            assert(names.deep_view() =~= variant_names(reg.variants@).take(k + 1int));
        }
        k = k + 1;
    }
    proof {
        assert(variant_names(reg.variants@).take(reg.variants.len() as int) =~= variant_names(
            reg.variants@,
        ));
        assert(names.deep_view() == rn);
    }
    // Parse every field's rule, aborting on the first offense.
    let mut plans: Vec<FieldPlan> = Vec::new();
    let mut j: usize = 0;
    proof {
        assert(input.fields@.skip(0) =~= input.fields@);
    }
    while j < input.fields.len()
        invariant
            j <= input.fields.len(),
            plans@.len() == j,
            fields_err(input.fields@, rn) == fields_err(input.fields@.skip(j as int), rn),
            forall|m: int|
                0 <= m < j ==> plan_matches(#[trigger] plans@[m], input.fields@[m], rn, input.name@),
        decreases input.fields.len() - j,
    {
        let ghost rest = input.fields@.skip(j as int);
        proof {
            assert(rest[0] == input.fields@[j as int]);
            assert(rest.skip(1) =~= input.fields@.skip(j + 1int));
        }
        match parse_field(&input.fields[j], &names, &input.name) {
            Err(e) => {
                proof {
                    assert(rule_of(input.fields@[j as int], rn) == Err::<RuleModel, ErrModel>(e@));
                }
                return Err(e);
            },
            Ok(p) => {
                plans.push(p);
            },
        }
        j = j + 1;
    }
    proof {
        assert(input.fields@.skip(input.fields.len() as int) =~= Seq::<FieldInput>::empty());
    }
    // Distribute fields and capabilities, then synthesize the conversions.
    let reg2 = distribute(&reg, &plans);
    let caps = capabilities(&plans, &names);
    let conversions = synthesize_all(&reg2.variants);
    let d = Derivation {
        canonical: reg2.canonical,
        variants: reg2.variants,
        capabilities: caps,
        conversions,
    };
    proof {
        assert(variant_names(d.variants@) =~= rn);
        assert forall|m: int| 0 <= m < d.variants@.len() implies (#[trigger] d.variants@[m])@.fields
            == spec_variant_fields(input.fields@, rn, input.name@, rn[m]) by {
            assert(reg.variants@[m].name@ == variant_names(reg.variants@)[m]);
            lemma_variant_fields(plans@, input.fields@, rn, input.name@, rn[m]);
        }
        assert forall|m: int| 0 <= m < d.capabilities@.len() implies capability_ok(
            #[trigger] d.capabilities@[m],
            input.fields@[m],
            rn,
            input.name@,
        ) by {
            assert(plan_matches(plans@[m], input.fields@[m], rn, input.name@));
        }
    }
    Ok(d)
}

} // verus!
