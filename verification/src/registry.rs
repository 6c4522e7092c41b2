//! Variant registry construction: one entry per declared variant name plus
//! the canonical record itself. A name declared twice keeps its first
//! position (the later declaration adds nothing, every entry being empty at
//! this stage). Record-level annotations are then distributed: plain
//! decorations go to the canonical record, and `attr_for(name, text)`
//! appends `text` to the named variant's decorations — an undeclared name is
//! rejected.

use vstd::prelude::*;

use crate::model::{CanonicalRecord, DeriveError, DirectiveArg, ErrModel, RawAttr, Variant,
    variant_names};
use crate::names::str_eq;
use crate::rule::{arg_text, contains_text};

verus! {

broadcast use
    vstd::seq_lib::group_seq_properties,
    vstd::prelude::Seq::lemma_filter_map_take_succ,
;

/// The declared names with later repetitions dropped: each name keeps its
/// first position.
pub open spec fn dedup(l: Seq<Seq<char>>) -> Seq<Seq<char>>
    decreases l.len(),
{
    if l.len() == 0 {
        Seq::empty()
    } else if dedup(l.drop_last()).contains(l.last()) {
        dedup(l.drop_last())
    } else {
        dedup(l.drop_last()).push(l.last())
    }
}

/// The registry's name list: the declared names, deduplicated, with the
/// canonical name appended unless it was itself declared.
pub open spec fn registry_names(declared: Seq<Seq<char>>, canonical: Seq<char>) -> Seq<Seq<char>> {
    let d = dedup(declared);
    if d.contains(canonical) {
        d
    } else {
        d.push(canonical)
    }
}

pub proof fn lemma_dedup(l: Seq<Seq<char>>)
    ensures
        dedup(l).no_duplicates(),
        forall|x: Seq<char>| dedup(l).contains(x) <==> l.contains(x),
    decreases l.len(),
{
    if l.len() > 0 {
        lemma_dedup(l.drop_last());
        assert forall|x: Seq<char>| l.contains(x) implies dedup(l).contains(x) by {
            let i = choose|i: int| 0 <= i < l.len() && l[i] == x;
            if i < l.len() - 1 {
                assert(l.drop_last()[i] == x);
                assert(l.drop_last().contains(x));
            } else {
                assert(x == l.last());
                if !dedup(l.drop_last()).contains(x) {
                    assert(dedup(l).last() == x);
                }
            }
        }
        assert forall|x: Seq<char>| dedup(l).contains(x) implies l.contains(x) by {
            if dedup(l.drop_last()).contains(x) {
                assert(l.drop_last().contains(x));
                let i = choose|i: int| 0 <= i < l.drop_last().len() && l.drop_last()[i] == x;
                assert(l[i] == x);
            } else {
                assert(x == l.last());
            }
        }
    }
}

/// The registry names are free of duplicates and include the canonical name.
pub proof fn lemma_registry_names(declared: Seq<Seq<char>>, canonical: Seq<char>)
    ensures
        registry_names(declared, canonical).no_duplicates(),
        registry_names(declared, canonical).contains(canonical),
{
    lemma_dedup(declared);
    let d = dedup(declared);
    if !d.contains(canonical) {
        assert(d.push(canonical).drop_last() =~= d);
        assert(d.push(canonical).last() == canonical);
    }
}

/// What one record-level annotation contributes to the decorations of the
/// variant named `n`: plain text decorates the canonical record, and a
/// well-shaped `attr_for(n, text)` contributes `text`.
pub open spec fn attr_decoration_for(a: RawAttr, n: Seq<char>, canonical: Seq<char>) -> Option<
    Seq<char>,
> {
    match a {
        RawAttr::Plain(t) => if n == canonical {
            Some(t@)
        } else {
            None
        },
        RawAttr::Directive(d) => {
            if d.name@ == "attr_for"@ {
                match d.args {
                    Some(args) => if args@.len() == 2 && (args@[0] matches DirectiveArg::Str(_))
                        && (args@[1] matches DirectiveArg::Str(_)) && arg_text(args@[0]) == n {
                        Some(arg_text(args@[1]))
                    } else {
                        None
                    },
                    None => None,
                }
            } else {
                None
            }
        },
    }
}

/// All decorations the record-level annotations give the variant named `n`,
/// in annotation order.
pub open spec fn decorations_for(attrs: Seq<RawAttr>, n: Seq<char>, canonical: Seq<char>) -> Seq<
    Seq<char>,
> {
    attrs.filter_map(|a: RawAttr| attr_decoration_for(a, n, canonical))
}

/// Why one record-level annotation is rejected, if it is: a directive that
/// is not a two-string `attr_for` is malformed, and an `attr_for` naming an
/// undeclared variant is unknown.
pub open spec fn record_attr_err(a: RawAttr, names: Seq<Seq<char>>) -> Option<ErrModel> {
    match a {
        RawAttr::Plain(t) => None,
        RawAttr::Directive(d) => {
            let n = d.name@;
            if n == "attr_for"@ {
                match d.args {
                    None => Some(ErrModel::Malformed(n)),
                    Some(args) => if args@.len() != 2 || !(args@[0] matches DirectiveArg::Str(_))
                        || !(args@[1] matches DirectiveArg::Str(_)) {
                        Some(ErrModel::Malformed(n))
                    } else if !names.contains(arg_text(args@[0])) {
                        Some(ErrModel::Unknown(arg_text(args@[0])))
                    } else {
                        None
                    },
                }
            } else {
                Some(ErrModel::Malformed(n))
            }
        },
    }
}

/// The first offense among the record-level annotations, in order.
pub open spec fn record_attrs_err(attrs: Seq<RawAttr>, names: Seq<Seq<char>>) -> Option<ErrModel>
    decreases attrs.len(),
{
    if attrs.len() == 0 {
        None
    } else {
        match record_attr_err(attrs[0], names) {
            Some(e) => Some(e),
            None => record_attrs_err(attrs.skip(1), names),
        }
    }
}

/// The registry: the canonical record's name and one variant per registry
/// name, in registry order.
pub struct Registry {
    pub canonical: String,
    pub variants: Vec<Variant>,
}

impl Registry {
    /// Well-formed: variant names are distinct and include the canonical one.
    pub open spec fn wf(&self) -> bool {
        &&& variant_names(self.variants@).no_duplicates()
        &&& variant_names(self.variants@).contains(self.canonical@)
    }
}

/// Validate the record-level annotations against the registry names,
/// reporting the first offense.
#[verifier::loop_isolation(false)]
fn check_record_attrs(attrs: &Vec<RawAttr>, names: &Vec<String>) -> (r: Result<(), DeriveError>)
    ensures
        match r {
            Ok(_) => record_attrs_err(attrs@, names.deep_view()) is None,
            Err(e) => record_attrs_err(attrs@, names.deep_view()) == Some(e@),
        },
{
    let ghost nv = names.deep_view();
    let mut i: usize = 0;
    proof {
        assert(attrs@.skip(0) =~= attrs@);
    }
    while i < attrs.len()
        invariant
            i <= attrs.len(),
            record_attrs_err(attrs@, nv) == record_attrs_err(attrs@.skip(i as int), nv),
        decreases attrs.len() - i,
    {
        let ghost rest = attrs@.skip(i as int);
        proof {
            assert(rest[0] == attrs@[i as int]);
            assert(rest.skip(1) =~= attrs@.skip(i + 1int));
        }
        let a = &attrs[i];
        match a {
            RawAttr::Plain(_) => {},
            RawAttr::Directive(d) => {
                if !str_eq(d.name.as_str(), "attr_for") {
                    return Err(DeriveError::MalformedAnnotation(d.name.clone()));
                }
                match &d.args {
                    None => {
                        return Err(DeriveError::MalformedAnnotation(d.name.clone()));
                    },
                    Some(args) => {
                        proof {
                            assert(d.args == Some(*args));
                        }
                        if args.len() != 2 {
                            return Err(DeriveError::MalformedAnnotation(d.name.clone()));
                        }
                        match (&args[0], &args[1]) {
                            (DirectiveArg::Str(a0), DirectiveArg::Str(_)) => {
                                if !contains_text(names, a0.as_str()) {
                                    proof {
                                        assert(arg_text(args@[0]) == a0@);
                                    }
                                    return Err(DeriveError::UnknownVariant(a0.clone()));
                                }
                            },
                            _ => {
                                return Err(DeriveError::MalformedAnnotation(d.name.clone()));
                            },
                        }
                    },
                }
            },
        }
        i = i + 1;
    }
    Ok(())
}

/// Collect the decorations that the record-level annotations give the
/// variant named `n`.
#[verifier::loop_isolation(false)]
fn decorations_for_variant(attrs: &Vec<RawAttr>, n: &String, canonical: &String) -> (r: Vec<String>)
    ensures
        r.deep_view() == decorations_for(attrs@, n@, canonical@),
{
    let mut r: Vec<String> = Vec::new();
    let mut i: usize = 0;
    proof {
        assert(r.deep_view() =~= decorations_for(attrs@.take(0), n@, canonical@));
    }
    while i < attrs.len()
        invariant
            i <= attrs.len(),
            r.deep_view() == decorations_for(attrs@.take(i as int), n@, canonical@),
        decreases attrs.len() - i,
    {
        let ghost pre = r.deep_view();
        let a = &attrs[i];
        match a {
            RawAttr::Plain(t) => {
                if str_eq(n.as_str(), canonical.as_str()) {
                    r.push(t.clone());
                    assert(r.deep_view() =~= pre.push(t@));
                }
            },
            RawAttr::Directive(d) => {
                proof {
                    assert(attrs@[i as int] == RawAttr::Directive(*d));
                }
                if str_eq(d.name.as_str(), "attr_for") {
                    match &d.args {
                        Some(args) => {
                            proof {
                                assert(d.args == Some(*args));
                            }
                            if args.len() == 2 {
                                match (&args[0], &args[1]) {
                                    (DirectiveArg::Str(a0), DirectiveArg::Str(a1)) => {
                                        if str_eq(a0.as_str(), n.as_str()) {
                                            r.push(a1.clone());
                                            assert(r.deep_view() =~= pre.push(arg_text(
                                                args@[1],
                                            )));
                                        }
                                    },
                                    _ => {},
                                }
                            }
                        },
                        None => {},
                    }
                }
            },
        }
        proof {
            assert(r.deep_view() =~= decorations_for(attrs@.take(i + 1int), n@, canonical@));
        }
        i = i + 1;
    }
    proof {
        assert(attrs@.take(attrs.len() as int) =~= attrs@);
    }
    r
}

/// Build the registry from the declared variant names and the canonical
/// record, validate the record-level annotations, and distribute the
/// decorations. Every variant starts with an empty field list.
#[verifier::loop_isolation(false)]
pub fn build_registry(record: &CanonicalRecord) -> (r: Result<Registry, DeriveError>)
    ensures
        match r {
            Ok(reg) => {
                &&& record_attrs_err(
                    record.attrs@,
                    registry_names(record.variants.deep_view(), record.name@),
                ) is None
                &&& reg.canonical@ == record.name@
                &&& variant_names(reg.variants@) == registry_names(
                    record.variants.deep_view(),
                    record.name@,
                )
                &&& reg.wf()
                &&& forall|k: int|
                    0 <= k < reg.variants@.len() ==> (#[trigger] reg.variants@[k])@.fields
                        == Seq::<crate::model::FieldModel>::empty()
                &&& forall|k: int|
                    0 <= k < reg.variants@.len() ==> (#[trigger] reg.variants@[k])@.decorations
                        == decorations_for(
                        record.attrs@,
                        variant_names(reg.variants@)[k],
                        record.name@,
                    )
            },
            Err(e) => record_attrs_err(
                record.attrs@,
                registry_names(record.variants.deep_view(), record.name@),
            ) == Some(e@),
        },
{
    let ghost rn = registry_names(record.variants.deep_view(), record.name@);
    // First-occurrence name list: declared names, then the canonical name.
    let mut names: Vec<String> = Vec::new();
    let mut i: usize = 0;
    proof {
        assert(record.variants.deep_view().take(0) =~= Seq::<Seq<char>>::empty());
        assert(names.deep_view() =~= dedup(record.variants.deep_view().take(0)));
    }
    while i < record.variants.len()
        invariant
            i <= record.variants.len(),
            names.deep_view() == dedup(record.variants.deep_view().take(i as int)),
        decreases record.variants.len() - i,
    {
        let ghost pre = names.deep_view();
        let ghost dv = record.variants.deep_view();
        proof {
            assert(dv.take(i + 1int).drop_last() =~= dv.take(i as int));
            assert(dv.take(i + 1int).last() == dv[i as int]);
        }
        if !contains_text(&names, record.variants[i].as_str()) {
            names.push(record.variants[i].clone());
            assert(names.deep_view() =~= pre.push(dv[i as int]));
        }
        i = i + 1;
    }
    proof {
        assert(record.variants.deep_view().take(record.variants.len() as int)
            =~= record.variants.deep_view());
    }
    if !contains_text(&names, record.name.as_str()) {
        let ghost pre = names.deep_view();
        names.push(record.name.clone());
        assert(names.deep_view() =~= pre.push(record.name@));
    }
    assert(names.deep_view() == rn);
    match check_record_attrs(&record.attrs, &names) {
        Err(e) => {
            return Err(e);
        },
        Ok(_) => {},
    }
    let mut variants: Vec<Variant> = Vec::new();
    let mut k: usize = 0;
    while k < names.len()
        invariant
            k <= names.len(),
            variants@.len() == k,
            forall|m: int|
                0 <= m < k ==> (#[trigger] variants@[m]).name@ == rn[m],
            forall|m: int|
                0 <= m < k ==> (#[trigger] variants@[m])@.fields
                    == Seq::<crate::model::FieldModel>::empty(),
            forall|m: int|
                0 <= m < k ==> (#[trigger] variants@[m])@.decorations == decorations_for(
                    record.attrs@,
                    rn[m],
                    record.name@,
                ),
        decreases names.len() - k,
    {
        let decorations = decorations_for_variant(&record.attrs, &names[k], &record.name);
        let v = Variant { name: names[k].clone(), decorations, fields: Vec::new() };
        proof {
            assert(v@.fields =~= Seq::<crate::model::FieldModel>::empty());
        }
        variants.push(v);
        k = k + 1;
    }
    proof {
        assert(variant_names(variants@) =~= rn);
        lemma_registry_names(record.variants.deep_view(), record.name@);
    }
    Ok(Registry { canonical: record.name.clone(), variants })
}

} // verus!
