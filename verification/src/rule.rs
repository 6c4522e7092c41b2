//! Field rule parsing: one field's raw annotation sequence becomes a
//! structured rule — a default-fallback flag, an inclusion selector, and the
//! annotations kept verbatim — validated against the declared variant names.
//!
//! Four directives are recognized: `default` and `only_in_self` (bare),
//! `only_in(...)` and `not_in(...)` (string-literal lists). The three
//! inclusion directives are mutually exclusive. Annotations are examined in
//! order and the first offense aborts: a shape error is reported before a
//! conflict, a conflict before an unknown variant name.

use vstd::prelude::*;
use vstd::seq_lib::lemma_seq_skip_of_skip;

use crate::model::{DeriveError, Directive, DirectiveArg, ErrModel, FieldInput, FieldModel,
    FieldSpec, RawAttr};
use crate::names::str_eq;

verus! {

broadcast use
    vstd::seq_lib::group_seq_properties,
    vstd::prelude::Seq::lemma_filter_map_take_succ,
;

// ---------------------------------------------------------------------------
// The mathematical rule
// ---------------------------------------------------------------------------

/// Which variants a field opts into: an explicit allow-list, an explicit
/// deny-list, or the canonical variant alone.
pub enum SelModel {
    Only(Seq<Seq<char>>),
    Except(Seq<Seq<char>>),
    SelfOnly,
}

/// The parsed rule of one field: the fallback flag, the selector (`None`
/// means the field goes everywhere), and the annotation texts kept verbatim.
pub struct RuleModel {
    pub default: bool,
    pub sel: Option<SelModel>,
    pub kept: Seq<Seq<char>>,
}

/// The text of a directive argument; arguments of another shape carry none.
pub open spec fn arg_text(a: DirectiveArg) -> Seq<char> {
    match a {
        DirectiveArg::Str(s) => s@,
        DirectiveArg::Other => Seq::empty(),
    }
}

pub open spec fn arg_texts(args: Seq<DirectiveArg>) -> Seq<Seq<char>> {
    args.map_values(|a: DirectiveArg| arg_text(a))
}

pub open spec fn all_str_args(args: Seq<DirectiveArg>) -> bool {
    forall|i: int| 0 <= i < args.len() ==> #[trigger] args[i] matches DirectiveArg::Str(_)
}

/// The first of `texts` that is not a declared name, if any.
pub open spec fn first_unknown(texts: Seq<Seq<char>>, names: Seq<Seq<char>>) -> Option<Seq<char>>
    decreases texts.len(),
{
    if texts.len() == 0 {
        None
    } else if !names.contains(texts[0]) {
        Some(texts[0])
    } else {
        first_unknown(texts.skip(1), names)
    }
}

/// What one recognized directive does to the rule being built.
pub enum DirStep {
    SetDefault,
    Select(SelModel),
}

/// The effect of one directive, given the declared names and whether an
/// inclusion directive was already seen on this field.
pub open spec fn directive_step(d: Directive, names: Seq<Seq<char>>, seen_inclusion: bool) -> Result<
    DirStep,
    ErrModel,
> {
    let n = d.name@;
    if n == "default"@ {
        if d.args is Some {
            Err(ErrModel::Malformed(n))
        } else {
            Ok(DirStep::SetDefault)
        }
    } else if n == "only_in_self"@ {
        if d.args is Some {
            Err(ErrModel::Malformed(n))
        } else if seen_inclusion {
            Err(ErrModel::Conflicting(n))
        } else {
            Ok(DirStep::Select(SelModel::SelfOnly))
        }
    } else if n == "only_in"@ || n == "not_in"@ {
        match d.args {
            None => Err(ErrModel::Malformed(n)),
            Some(args) => {
                if !all_str_args(args@) || args@.len() == 0 {
                    Err(ErrModel::Malformed(n))
                } else if seen_inclusion {
                    Err(ErrModel::Conflicting(n))
                } else {
                    match first_unknown(arg_texts(args@), names) {
                        Some(u) => Err(ErrModel::Unknown(u)),
                        None => Ok(
                            DirStep::Select(
                                if n == "only_in"@ {
                                    SelModel::Only(arg_texts(args@))
                                } else {
                                    SelModel::Except(arg_texts(args@))
                                },
                            ),
                        ),
                    }
                }
            },
        }
    } else {
        Err(ErrModel::Malformed(n))
    }
}

/// The whole annotation sequence folded into a rule, front to back.
pub open spec fn parse_attrs(
    attrs: Seq<RawAttr>,
    names: Seq<Seq<char>>,
    sel: Option<SelModel>,
    dflt: bool,
    kept: Seq<Seq<char>>,
) -> Result<RuleModel, ErrModel>
    decreases attrs.len(),
{
    if attrs.len() == 0 {
        Ok(RuleModel { default: dflt, sel: sel, kept: kept })
    } else {
        match attrs[0] {
            RawAttr::Plain(t) => parse_attrs(attrs.skip(1), names, sel, dflt, kept.push(t@)),
            RawAttr::Directive(d) => match directive_step(d, names, sel is Some) {
                Err(e) => Err(e),
                Ok(DirStep::SetDefault) => parse_attrs(attrs.skip(1), names, sel, true, kept),
                Ok(DirStep::Select(s)) => parse_attrs(attrs.skip(1), names, Some(s), dflt, kept),
            },
        }
    }
}

/// The rule of one declared field: an unnamed field is rejected outright,
/// otherwise its annotations are folded into a rule.
pub open spec fn rule_of(f: FieldInput, names: Seq<Seq<char>>) -> Result<RuleModel, ErrModel> {
    if f.name@.len() == 0 {
        Err(ErrModel::Unnamed)
    } else {
        parse_attrs(f.attrs@, names, None, false, Seq::empty())
    }
}

/// The declared names that keep a name present in `l`, in declared order.
pub open spec fn names_in(names: Seq<Seq<char>>, l: Seq<Seq<char>>) -> Seq<Seq<char>> {
    names.filter_map(
        |n: Seq<char>|
            if l.contains(n) {
                Some(n)
            } else {
                None
            },
    )
}

/// The declared names minus those present in `l`, in declared order.
pub open spec fn names_not_in(names: Seq<Seq<char>>, l: Seq<Seq<char>>) -> Seq<Seq<char>> {
    names.filter_map(
        |n: Seq<char>|
            if !l.contains(n) {
                Some(n)
            } else {
                None
            },
    )
}

/// The variant names that receive a field, from its selector: the declared
/// names intersected with an allow-list, minus a deny-list, the canonical
/// name alone, or all declared names.
pub open spec fn resolve_targets(
    sel: Option<SelModel>,
    names: Seq<Seq<char>>,
    canonical: Seq<char>,
) -> Seq<Seq<char>> {
    match sel {
        None => names,
        Some(SelModel::SelfOnly) => seq![canonical],
        Some(SelModel::Only(l)) => names_in(names, l),
        Some(SelModel::Except(l)) => names_not_in(names, l),
    }
}

// ---------------------------------------------------------------------------
// Executable parser
// ---------------------------------------------------------------------------

/// The executable selector; its view is `SelModel`.
pub enum Selector {
    Only(Vec<String>),
    Except(Vec<String>),
    SelfOnly,
}

pub open spec fn sel_view(s: Option<Selector>) -> Option<SelModel> {
    match s {
        None => None,
        Some(Selector::Only(v)) => Some(SelModel::Only(v.deep_view())),
        Some(Selector::Except(v)) => Some(SelModel::Except(v.deep_view())),
        Some(Selector::SelfOnly) => Some(SelModel::SelfOnly),
    }
}

/// One field ready for distribution: the field as it will be emitted, and
/// the names of the variants that receive it, in registry order.
pub struct FieldPlan {
    pub field: FieldSpec,
    pub targets: Vec<String>,
}

/// Whether `s` occurs among `names`.
pub fn contains_text(names: &Vec<String>, s: &str) -> (r: bool)
    ensures
        r == names.deep_view().contains(s@),
{
    let mut i: usize = 0;
    while i < names.len()
        invariant
            i <= names.len(),
            forall|j: int| 0 <= j < i ==> names.deep_view()[j] != s@,
        decreases names.len() - i,
    {
        if str_eq(names[i].as_str(), s) {
            assert(names.deep_view()[i as int] == s@);
            return true;
        }
        i = i + 1;
    }
    false
}

/// Clone a list of strings, keeping its view.
pub fn clone_strings(v: &Vec<String>) -> (r: Vec<String>)
    ensures
        r.deep_view() == v.deep_view(),
{
    let mut r: Vec<String> = Vec::new();
    let mut i: usize = 0;
    while i < v.len()
        invariant
            i <= v.len(),
            r.deep_view() =~= v.deep_view().take(i as int),
        decreases v.len() - i,
    {
        let ghost pre = r.deep_view();
        r.push(v[i].clone());
        proof {
            assert(r.deep_view() =~= pre.push(v.deep_view()[i as int]));
            assert(r.deep_view() =~= v.deep_view().take(i + 1int));
        }
        i = i + 1;
    }
    assert(v.deep_view().take(v.len() as int) =~= v.deep_view());
    r
}

proof fn lemma_first_unknown_skip(texts: Seq<Seq<char>>, names: Seq<Seq<char>>, k: int)
    requires
        0 <= k <= texts.len(),
        forall|j: int| 0 <= j < k ==> names.contains(#[trigger] texts[j]),
    ensures
        first_unknown(texts, names) == first_unknown(texts.skip(k), names),
    decreases k,
{
    if k > 0 {
        lemma_first_unknown_skip(texts.skip(1), names, k - 1);
        lemma_seq_skip_of_skip(texts, 1, k - 1);
        assert(forall|j: int| 0 <= j < k - 1 ==> texts.skip(1)[j] == texts[j + 1]);
    }
}

/// Resolve a selector against the registry names.
fn resolve_selector(sel: &Option<Selector>, names: &Vec<String>, canonical: &String) -> (r: Vec<
    String,
>)
    ensures
        r.deep_view() == resolve_targets(sel_view(*sel), names.deep_view(), canonical@),
{
    match sel {
        None => clone_strings(names),
        Some(Selector::SelfOnly) => {
            let r = vec![canonical.clone()];
            assert(r.deep_view() =~= seq![canonical@]);
            r
        },
        Some(Selector::Only(l)) => {
            let mut r: Vec<String> = Vec::new();
            let mut i: usize = 0;
            while i < names.len()
                invariant
                    i <= names.len(),
                    r.deep_view() == names_in(names.deep_view().take(i as int), l.deep_view()),
                decreases names.len() - i,
            {
                let ghost pre = r.deep_view();
                if contains_text(l, names[i].as_str()) {
                    r.push(names[i].clone());
                    assert(r.deep_view() =~= pre.push(names.deep_view()[i as int]));
                }
                proof {
                    assert(names_in(names.deep_view().take(i + 1int), l.deep_view()) =~= r.deep_view());
                }
                i = i + 1;
            }
            proof {
                assert(names.deep_view().take(names.len() as int) =~= names.deep_view());
            }
            r
        },
        Some(Selector::Except(l)) => {
            let mut r: Vec<String> = Vec::new();
            let mut i: usize = 0;
            while i < names.len()
                invariant
                    i <= names.len(),
                    r.deep_view() == names_not_in(names.deep_view().take(i as int), l.deep_view()),
                decreases names.len() - i,
            {
                let ghost pre = r.deep_view();
                if !contains_text(l, names[i].as_str()) {
                    r.push(names[i].clone());
                    assert(r.deep_view() =~= pre.push(names.deep_view()[i as int]));
                }
                proof {
                    assert(names_not_in(names.deep_view().take(i + 1int), l.deep_view())
                        =~= r.deep_view());
                }
                i = i + 1;
            }
            proof {
                assert(names.deep_view().take(names.len() as int) =~= names.deep_view());
            }
            r
        },
    }
}

/// Parse one field's annotations against the declared variant names and
/// resolve which variants receive it. On success the returned field carries
/// the kept annotations and the fallback flag; on failure the error is the
/// first offense in annotation order.
#[verifier::loop_isolation(false)]
pub fn parse_field(input: &FieldInput, names: &Vec<String>, canonical: &String) -> (r: Result<
    FieldPlan,
    DeriveError,
>)
    ensures
        match r {
            Ok(plan) => {
                &&& rule_of(*input, names.deep_view()) matches Ok(rm)
                &&& plan.field@ == (FieldModel {
                    name: input.name@,
                    ty: input.ty@,
                    decorations: rm.kept,
                    default: rm.default,
                })
                &&& plan.targets.deep_view() == resolve_targets(
                    rm.sel,
                    names.deep_view(),
                    canonical@,
                )
            },
            Err(e) => rule_of(*input, names.deep_view()) == Err::<RuleModel, ErrModel>(e@),
        },
{
    let ghost nv = names.deep_view();
    if input.name.as_str().is_empty() {
        return Err(DeriveError::UnnamedField);
    }
    let mut sel: Option<Selector> = None;
    let mut dflt: bool = false;
    let mut kept: Vec<String> = Vec::new();
    let mut i: usize = 0;
    proof {
        assert(input.attrs@.skip(0) =~= input.attrs@);
        assert(kept.deep_view() =~= Seq::<Seq<char>>::empty());
    }
    while i < input.attrs.len()
        invariant
            i <= input.attrs.len(),
            input.name@.len() > 0,
            nv == names.deep_view(),
            parse_attrs(input.attrs@, nv, None, false, Seq::empty()) == parse_attrs(
                input.attrs@.skip(i as int),
                nv,
                sel_view(sel),
                dflt,
                kept.deep_view(),
            ),
        decreases input.attrs.len() - i,
    {
        let ghost rest = input.attrs@.skip(i as int);
        proof {
            assert(rest[0] == input.attrs@[i as int]);
            assert(rest.skip(1) =~= input.attrs@.skip(i + 1int));
        }
        let a = &input.attrs[i];
        match a {
            RawAttr::Plain(t) => {
                let ghost pre = kept.deep_view();
                kept.push(t.clone());
                assert(kept.deep_view() =~= pre.push(t@));
            },
            RawAttr::Directive(d) => {
                let seen = sel.is_some();
                if str_eq(d.name.as_str(), "default") {
                    if d.args.is_some() {
                        return Err(DeriveError::MalformedAnnotation(d.name.clone()));
                    }
                    dflt = true;
                } else if str_eq(d.name.as_str(), "only_in_self") {
                    if d.args.is_some() {
                        return Err(DeriveError::MalformedAnnotation(d.name.clone()));
                    }
                    if seen {
                        return Err(DeriveError::ConflictingDirective(d.name.clone()));
                    }
                    sel = Some(Selector::SelfOnly);
                } else {
                    let is_only = str_eq(d.name.as_str(), "only_in");
                    let is_not = str_eq(d.name.as_str(), "not_in");
                    if !is_only && !is_not {
                        return Err(DeriveError::MalformedAnnotation(d.name.clone()));
                    }
                    match &d.args {
                        None => {
                            return Err(DeriveError::MalformedAnnotation(d.name.clone()));
                        },
                        Some(args) => {
                            let mut texts: Vec<String> = Vec::new();
                            let mut j: usize = 0;
                            while j < args.len()
                                invariant
                                    j <= args.len(),
                                    texts.deep_view() == arg_texts(args@.take(j as int)),
                                    forall|k: int|
                                        0 <= k < j ==> #[trigger] args@[k] matches DirectiveArg::Str(_),
                                decreases args.len() - j,
                            {
                                let ghost pre = texts.deep_view();
                                match &args[j] {
                                    DirectiveArg::Str(s) => {
                                        texts.push(s.clone());
                                        proof {
                                            assert(arg_texts(args@.take(j + 1int)) =~= pre.push(
                                                arg_text(args@[j as int]),
                                            ));
                                            assert(texts.deep_view() =~= pre.push(
                                                arg_text(args@[j as int]),
                                            ));
                                        }
                                    },
                                    DirectiveArg::Other => {
                                        proof {
                                            assert(d.args == Some(*args));
                                            assert(args@[j as int] matches DirectiveArg::Other);
                                            assert(!all_str_args(args@));
                                            assert(directive_step(*d, nv, sel_view(sel) is Some)
                                                == Err::<DirStep, ErrModel>(
                                                ErrModel::Malformed(d.name@),
                                            ));
                                        }
                                        return Err(
                                            DeriveError::MalformedAnnotation(d.name.clone()),
                                        );
                                    },
                                }
                                j = j + 1;
                            }
                            proof {
                                assert(args@.take(args.len() as int) =~= args@);
                            }
                            if args.len() == 0 {
                                return Err(DeriveError::MalformedAnnotation(d.name.clone()));
                            }
                            if seen {
                                return Err(DeriveError::ConflictingDirective(d.name.clone()));
                            }
                            let mut k: usize = 0;
                            while k < texts.len()
                                invariant
                                    k <= texts.len(),
                                    nv == names.deep_view(),
                                    texts.deep_view() == arg_texts(args@),
                                    forall|m: int|
                                        0 <= m < k ==> nv.contains(#[trigger] texts.deep_view()[m]),
                                decreases texts.len() - k,
                            {
                                if !contains_text(names, texts[k].as_str()) {
                                    proof {
                                        assert(d.args == Some(*args));
                                        assert(all_str_args(args@));
                                        assert(!(sel_view(sel) is Some));
                                        lemma_first_unknown_skip(arg_texts(args@), nv, k as int);
                                        assert(arg_texts(args@).skip(k as int)[0]
                                            == texts.deep_view()[k as int]);
                                        assert(first_unknown(arg_texts(args@), nv) == Some(
                                            texts.deep_view()[k as int],
                                        ));
                                        assert(directive_step(*d, nv, sel_view(sel) is Some)
                                            == Err::<DirStep, ErrModel>(
                                            ErrModel::Unknown(texts.deep_view()[k as int]),
                                        ));
                                    }
                                    return Err(DeriveError::UnknownVariant(texts[k].clone()));
                                }
                                k = k + 1;
                            }
                            proof {
                                lemma_first_unknown_skip(arg_texts(args@), nv, texts.len() as int);
                            }
                            if is_only {
                                sel = Some(Selector::Only(texts));
                            } else {
                                sel = Some(Selector::Except(texts));
                            }
                        },
                    }
                }
            },
        }
        i = i + 1;
    }
    proof {
        assert(input.attrs@.skip(input.attrs.len() as int) =~= Seq::<RawAttr>::empty());
    }
    let targets = resolve_selector(&sel, names, canonical);
    let field = FieldSpec {
        name: input.name.clone(),
        ty: input.ty.clone(),
        decorations: kept,
        default: dflt,
    };
    Ok(FieldPlan { field, targets })
}

} // verus!
