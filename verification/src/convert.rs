//! Field-set comparison and conversion synthesis.
//!
//! For an ordered pair (source, target) of distinct variants, the fields the
//! target needs but the source lacks are split by the default flag. An
//! unconditional conversion exists exactly when nothing required is missing;
//! whenever anything at all is missing, two named methods are synthesized —
//! one taking every missing field as an argument, one taking only the
//! required ones and filling the rest from fallback values.

use vstd::prelude::*;
use vstd::string::StringExecFns;

use crate::distribute::{clone_field, has_field_named};
use crate::model::{FieldModel, FieldSpec, FromConversion, MethodConversion, PairConversions,
    Variant, VariantModel, field_names, field_views};
use crate::names::{pascal_to_snake, snake_of};
use crate::rule::clone_strings;

verus! {

broadcast use
    vstd::seq_lib::group_seq_properties,
    vstd::prelude::Seq::lemma_filter_map_take_succ,
;

/// The fields of `a` whose names do not occur in `b`, in `a`'s order.
pub open spec fn missing_from(a: Seq<FieldModel>, b: Seq<FieldModel>) -> Seq<FieldModel> {
    a.filter_map(
        |f: FieldModel|
            if !field_names(b).contains(f.name) {
                Some(f)
            } else {
                None
            },
    )
}

/// The fields of `a` whose names also occur in `b`, in `a`'s order.
pub open spec fn common_with(a: Seq<FieldModel>, b: Seq<FieldModel>) -> Seq<FieldModel> {
    a.filter_map(
        |f: FieldModel|
            if field_names(b).contains(f.name) {
                Some(f)
            } else {
                None
            },
    )
}

/// The fields without the default flag.
pub open spec fn required_of(ms: Seq<FieldModel>) -> Seq<FieldModel> {
    ms.filter_map(
        |f: FieldModel|
            if !f.default {
                Some(f)
            } else {
                None
            },
    )
}

/// The names of the fields with the default flag.
pub open spec fn defaulted_names(ms: Seq<FieldModel>) -> Seq<Seq<char>> {
    ms.filter_map(
        |f: FieldModel|
            if f.default {
                Some(f.name)
            } else {
                None
            },
    )
}

/// The names of the fields, in order.
pub open spec fn names_of(ms: Seq<FieldModel>) -> Seq<Seq<char>> {
    ms.filter_map(|f: FieldModel| Some(f.name))
}

/// The derived name of a conversion method: `into` glued to the target's
/// name (and a `_defaults` tail for the defaults-favoring form), the whole
/// turned to snake case.
pub open spec fn method_name(target: Seq<char>, defaults_kind: bool) -> Seq<char> {
    if defaults_kind {
        snake_of("into"@ + target + "_defaults"@)
    } else {
        snake_of("into"@ + target)
    }
}

/// What a correct conversion method for (target, source) looks like.
pub open spec fn method_ok(
    m: MethodConversion,
    t: VariantModel,
    s: VariantModel,
    defaults_kind: bool,
) -> bool {
    let miss = missing_from(t.fields, s.fields);
    &&& m.method@ == method_name(t.name, defaults_kind)
    &&& m.copied.deep_view() == names_of(common_with(t.fields, s.fields))
    &&& (if defaults_kind {
        field_views(m.args@) == required_of(miss) && m.defaulted.deep_view() == defaulted_names(
            miss,
        )
    } else {
        field_views(m.args@) == miss && m.defaulted.deep_view() == Seq::<Seq<char>>::empty()
    })
}

/// Everything the synthesizer owes one ordered pair: the unconditional
/// conversion exactly when no required field is missing, and both named
/// methods exactly when anything is missing. Kept opaque so that reasoning
/// about whole conversion tables does not unfold it; reveal it to read one
/// entry's contract.
#[verifier::opaque]
pub open spec fn pair_ok(p: PairConversions, t: VariantModel, s: VariantModel) -> bool {
    let miss = missing_from(t.fields, s.fields);
    &&& p.source@ == s.name
    &&& p.target@ == t.name
    &&& (p.from is Some <==> required_of(miss).len() == 0)
    &&& (p.from matches Some(fc) ==> fc.copied.deep_view() == names_of(
        common_with(t.fields, s.fields),
    ) && fc.defaulted.deep_view() == defaulted_names(miss))
    &&& (p.into_all is Some <==> miss.len() > 0)
    &&& (p.into_all matches Some(m) ==> method_ok(m, t, s, false))
    &&& (p.into_defaults is Some <==> miss.len() > 0)
    &&& (p.into_defaults matches Some(m) ==> method_ok(m, t, s, true))
}

impl Variant {
    /// The fields of `self` that `other` lacks, by name.
    #[verifier::loop_isolation(false)]
    pub fn missing_fields_from(&self, other: &Variant) -> (r: Vec<FieldSpec>)
        ensures
            field_views(r@) == missing_from(self@.fields, other@.fields),
    {
        let mut r: Vec<FieldSpec> = Vec::new();
        let mut i: usize = 0;
        proof {
            assert(self@.fields.take(0) =~= Seq::<FieldModel>::empty());
            assert(field_views(r@) =~= missing_from(self@.fields.take(0), other@.fields));
        }
        while i < self.fields.len()
            invariant
                i <= self.fields.len(),
                field_views(r@) == missing_from(self@.fields.take(i as int), other@.fields),
            decreases self.fields.len() - i,
        {
            let ghost pre = field_views(r@);
            if !has_field_named(&other.fields, self.fields[i].name.as_str()) {
                r.push(clone_field(&self.fields[i]));
                assert(field_views(r@) =~= pre.push(self@.fields[i as int]));
            }
            proof {
                assert(field_views(r@) =~= missing_from(
                    self@.fields.take(i + 1int),
                    other@.fields,
                ));
            }
            i = i + 1;
        }
        proof {
            assert(self@.fields.take(self.fields.len() as int) =~= self@.fields);
        }
        r
    }

    /// The fields of `self` that `other` also has, by name.
    #[verifier::loop_isolation(false)]
    pub fn same_fields_as(&self, other: &Variant) -> (r: Vec<FieldSpec>)
        ensures
            field_views(r@) == common_with(self@.fields, other@.fields),
    {
        let mut r: Vec<FieldSpec> = Vec::new();
        let mut i: usize = 0;
        proof {
            assert(self@.fields.take(0) =~= Seq::<FieldModel>::empty());
            assert(field_views(r@) =~= common_with(self@.fields.take(0), other@.fields));
        }
        while i < self.fields.len()
            invariant
                i <= self.fields.len(),
                field_views(r@) == common_with(self@.fields.take(i as int), other@.fields),
            decreases self.fields.len() - i,
        {
            let ghost pre = field_views(r@);
            if has_field_named(&other.fields, self.fields[i].name.as_str()) {
                r.push(clone_field(&self.fields[i]));
                assert(field_views(r@) =~= pre.push(self@.fields[i as int]));
            }
            proof {
                assert(field_views(r@) =~= common_with(
                    self@.fields.take(i + 1int),
                    other@.fields,
                ));
            }
            i = i + 1;
        }
        proof {
            assert(self@.fields.take(self.fields.len() as int) =~= self@.fields);
        }
        r
    }
}

/// The names of a field list, cloned.
#[verifier::loop_isolation(false)]
fn names_of_fields(fields: &Vec<FieldSpec>) -> (r: Vec<String>)
    ensures
        r.deep_view() == names_of(field_views(fields@)),
{
    let mut r: Vec<String> = Vec::new();
    let mut i: usize = 0;
    proof {
        assert(field_views(fields@).take(0) =~= Seq::<FieldModel>::empty());
        assert(r.deep_view() =~= names_of(field_views(fields@).take(0)));
    }
    while i < fields.len()
        invariant
            i <= fields.len(),
            r.deep_view() == names_of(field_views(fields@).take(i as int)),
        decreases fields.len() - i,
    {
        let ghost pre = r.deep_view();
        r.push(fields[i].name.clone());
        proof {
            assert(r.deep_view() =~= pre.push(fields@[i as int].name@));
            assert(r.deep_view() =~= names_of(field_views(fields@).take(i + 1int)));
        }
        i = i + 1;
    }
    proof {
        assert(field_views(fields@).take(fields.len() as int) =~= field_views(fields@));
    }
    r
}

/// Synthesize every conversion for one ordered pair of distinct variants.
#[verifier::loop_isolation(false)]
#[verifier::rlimit(60)]
pub fn synthesize_pair(target: &Variant, source: &Variant) -> (r: PairConversions)
    ensures
        pair_ok(r, target@, source@),
{
    proof {
        reveal(pair_ok);
    }
    let missing = target.missing_fields_from(source);
    let common = target.same_fields_as(source);
    let copied = names_of_fields(&common);
    let ghost miss = missing_from(target@.fields, source@.fields);

    // Split the missing fields by the default flag.
    let mut required: Vec<FieldSpec> = Vec::new();
    let mut defaulted: Vec<String> = Vec::new();
    let mut i: usize = 0;
    proof {
        assert(field_views(missing@).take(0) =~= Seq::<FieldModel>::empty());
        assert(field_views(required@) =~= required_of(field_views(missing@).take(0)));
        assert(defaulted.deep_view() =~= defaulted_names(field_views(missing@).take(0)));
    }
    while i < missing.len()
        invariant
            i <= missing.len(),
            field_views(required@) == required_of(field_views(missing@).take(i as int)),
            defaulted.deep_view() == defaulted_names(field_views(missing@).take(i as int)),
        decreases missing.len() - i,
    {
        let ghost pre_r = field_views(required@);
        let ghost pre_d = defaulted.deep_view();
        if missing[i].default {
            defaulted.push(missing[i].name.clone());
            assert(defaulted.deep_view() =~= pre_d.push(missing@[i as int].name@));
        } else {
            required.push(clone_field(&missing[i]));
            assert(field_views(required@) =~= pre_r.push(missing@[i as int]@));
        }
        proof {
            assert(field_views(required@) =~= required_of(field_views(missing@).take(i + 1int)));
            assert(defaulted.deep_view() =~= defaulted_names(
                field_views(missing@).take(i + 1int),
            ));
        }
        i = i + 1;
    }
    proof {
        assert(field_views(missing@).take(missing.len() as int) =~= field_views(missing@));
    }

    let from: Option<FromConversion> = if required.len() == 0 {
        Some(
            FromConversion {
                copied: clone_strings(&copied),
                defaulted: clone_strings(&defaulted),
            },
        )
    } else {
        None
    };

    if missing.len() == 0 {
        proof {
            assert(miss.len() == 0);
            assert(required_of(miss).len() == 0);
        }
        PairConversions {
            source: source.name.clone(),
            target: target.name.clone(),
            from,
            into_all: None,
            into_defaults: None,
        }
    } else {
        let base = "into".to_owned().concat(target.name.as_str());
        let all_name = pascal_to_snake(base.as_str());
        let defaults_base = base.concat("_defaults");
        let defaults_name = pascal_to_snake(defaults_base.as_str());
        proof {
            assert(("into"@ + target.name@) + "_defaults"@ =~= "into"@ + target.name@
                + "_defaults"@);
        }
        let into_all = MethodConversion {
            method: all_name,
            copied: clone_strings(&copied),
            defaulted: Vec::new(),
            args: missing,
        };
        let into_defaults = MethodConversion {
            method: defaults_name,
            copied,
            defaulted,
            args: required,
        };
        proof {
            assert(into_all.defaulted.deep_view() =~= Seq::<Seq<char>>::empty());
            assert(miss.len() > 0);
        }
        PairConversions {
            source: source.name.clone(),
            target: target.name.clone(),
            from,
            into_all: Some(into_all),
            into_defaults: Some(into_defaults),
        }
    }
}

/// The position of the ordered pair (target `a`, source `b`) in the
/// synthesizer's target-major sweep over `n` variants: row `a` holds the
/// `n - 1` pairs whose target is variant `a`, sources in registry order.
pub open spec fn pair_index(a: int, b: int, n: int) -> int {
    a * (n - 1) + (if b < a {
        b
    } else {
        b - 1
    })
}

/// The sweep order is strict: an earlier pair has a smaller position.
proof fn lemma_pair_index_lt(a1: int, b1: int, a2: int, b2: int, n: int)
    by (nonlinear_arith)
    requires
        0 <= a1 < n,
        0 <= b1 < n,
        a1 != b1,
        0 <= a2 < n,
        0 <= b2 < n,
        a2 != b2,
        a1 < a2 || (a1 == a2 && b1 < b2),
    ensures
        pair_index(a1, b1, n) < pair_index(a2, b2, n),
{
}

/// Every pair's position lies inside the table.
proof fn lemma_pair_index_bounds(a: int, b: int, n: int)
    by (nonlinear_arith)
    requires
        0 <= a < n,
        0 <= b < n,
        a != b,
    ensures
        0 <= pair_index(a, b, n) < n * (n - 1),
{
}

/// Synthesize the conversions for every ordered pair of distinct variants,
/// target-major: the entry for (target `a`, source `b`) stands at
/// `pair_index(a, b, n)`.
#[verifier::loop_isolation(false)]
#[verifier::rlimit(100)]
pub fn synthesize_all(variants: &Vec<Variant>) -> (r: Vec<PairConversions>)
    ensures
        r@.len() == variants@.len() * (variants@.len() - 1),
        forall|a: int, b: int|
            #![trigger pair_index(a, b, variants@.len() as int)]
            0 <= a < variants@.len() && 0 <= b < variants@.len() && a != b ==> {
                &&& 0 <= pair_index(a, b, variants@.len() as int) < r@.len()
                &&& pair_ok(
                    r@[pair_index(a, b, variants@.len() as int)],
                    variants@[a]@,
                    variants@[b]@,
                )
            },
{
    let ghost vs = variants@;
    let ghost n = variants@.len() as int;
    let mut r: Vec<PairConversions> = Vec::new();
    let mut ti: usize = 0;
    while ti < variants.len()
        invariant
            ti <= variants.len(),
            r@.len() == ti * (n - 1),
            forall|a: int, b: int|
                #![trigger pair_index(a, b, n)]
                0 <= a < n && 0 <= b < n && a != b && a < ti ==> {
                    &&& 0 <= pair_index(a, b, n) < r@.len()
                    &&& pair_ok(r@[pair_index(a, b, n)], vs[a]@, vs[b]@)
                },
        decreases variants.len() - ti,
    {
        let mut si: usize = 0;
        proof {
            assert(ti * (n - 1) + 0 == r@.len());
            assert forall|a: int, b: int|
                #![trigger pair_index(a, b, n)]
                0 <= a < n && 0 <= b < n && a != b && (a < ti || (a == ti && b < si)) implies {
                &&& 0 <= pair_index(a, b, n) < r@.len()
                &&& pair_ok(r@[pair_index(a, b, n)], vs[a]@, vs[b]@)
            } by {
                assert(a < ti);
                lemma_pair_index_lt(a, b, ti as int, 0, n);
                assert(pair_index(ti as int, 0, n) == ti * (n - 1));
            }
        }
        while si < variants.len()
            invariant
                ti < variants.len(),
                si <= variants.len(),
                r@.len() == ti * (n - 1) + (if si <= ti {
                    si as int
                } else {
                    si - 1
                }),
                forall|a: int, b: int|
                    #![trigger pair_index(a, b, n)]
                    0 <= a < n && 0 <= b < n && a != b && (a < ti || (a == ti && b < si)) ==> {
                        &&& 0 <= pair_index(a, b, n) < r@.len()
                        &&& pair_ok(r@[pair_index(a, b, n)], vs[a]@, vs[b]@)
                    },
            decreases variants.len() - si,
        {
            if si != ti {
                let pc = synthesize_pair(&variants[ti], &variants[si]);
                let ghost pre = r@;
                r.push(pc);
                proof {
                    let cv = r@;
                    assert(pair_index(ti as int, si as int, n) == pre.len() as int);
                    assert(cv[pre.len() as int] == pc);
                    assert forall|a: int, b: int|
                        #![trigger pair_index(a, b, n)]
                        0 <= a < n && 0 <= b < n && a != b && (a < ti || (a == ti && b < si + 1))
                        implies {
                        &&& 0 <= pair_index(a, b, n) < cv.len()
                        &&& pair_ok(cv[pair_index(a, b, n)], vs[a]@, vs[b]@)
                    } by {
                        lemma_pair_index_bounds(a, b, n);
                        if a == ti as int && b == si as int {
                            assert(pair_ok(cv[pair_index(a, b, n)], vs[a]@, vs[b]@));
                        } else {
                            lemma_pair_index_lt(a, b, ti as int, si as int, n);
                            assert(cv[pair_index(a, b, n)] == pre[pair_index(a, b, n)]);
                        }
                    }
                }
            }
            si = si + 1;
        }
        proof {
            assert(ti * (n - 1) + (n - 1) == (ti + 1int) * (n - 1)) by (nonlinear_arith);
        }
        ti = ti + 1;
    }
    proof {
        assert forall|a: int, b: int|
            #![trigger pair_index(a, b, variants@.len() as int)]
            0 <= a < variants@.len() && 0 <= b < variants@.len() && a != b implies {
            &&& 0 <= pair_index(a, b, variants@.len() as int) < r@.len()
            &&& pair_ok(
                r@[pair_index(a, b, variants@.len() as int)],
                variants@[a]@,
                variants@[b]@,
            )
        } by {
            assert(vs[a] == variants@[a]);
            assert(vs[b] == variants@[b]);
            assert(a < ti);
            lemma_pair_index_bounds(a, b, variants@.len() as int);
        }
    }
    r
}

} // verus!
