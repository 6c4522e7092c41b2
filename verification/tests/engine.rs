use boilermates::derive::derive_family;
use boilermates::model::{CanonicalRecord, Derivation, DeriveError, Directive, DirectiveArg,
    FieldInput, PairConversions, RawAttr, Variant};
use boilermates::names::{pascal_to_snake, snake_to_pascal};

fn s(t: &str) -> String {
    t.to_string()
}

fn flag(name: &str) -> RawAttr {
    RawAttr::Directive(Directive { name: s(name), args: None })
}

fn list(name: &str, args: &[&str]) -> RawAttr {
    RawAttr::Directive(Directive {
        name: s(name),
        args: Some(args.iter().map(|a| DirectiveArg::Str(s(a))).collect()),
    })
}

fn field(name: &str, ty: &str, attrs: Vec<RawAttr>) -> FieldInput {
    FieldInput { name: s(name), ty: s(ty), attrs }
}

fn record(
    name: &str,
    attrs: Vec<RawAttr>,
    fields: Vec<FieldInput>,
    variants: &[&str],
) -> CanonicalRecord {
    CanonicalRecord {
        name: s(name),
        attrs,
        fields,
        variants: variants.iter().map(|v| s(v)).collect(),
    }
}

fn variant<'a>(d: &'a Derivation, name: &str) -> &'a Variant {
    d.variants.iter().find(|v| v.name == name).expect("variant not derived")
}

fn pair<'a>(d: &'a Derivation, target: &str, source: &str) -> &'a PairConversions {
    d.conversions
        .iter()
        .find(|p| p.target == target && p.source == source)
        .expect("pair not synthesized")
}

fn field_names_of(v: &Variant) -> Vec<String> {
    v.fields.iter().map(|f| f.name.clone()).collect()
}

#[test]
fn pascal_to_snake_inserts_separators() {
    assert_eq!(pascal_to_snake("PersonSummary"), "person_summary");
    assert_eq!(pascal_to_snake("Person"), "person");
    assert_eq!(pascal_to_snake("intoPersonSummary_defaults"), "into_person_summary_defaults");
    assert_eq!(pascal_to_snake("AbC"), "ab_c");
    assert_eq!(pascal_to_snake(""), "");
}

#[test]
fn snake_to_pascal_capitalizes_words() {
    assert_eq!(snake_to_pascal("person_summary"), "PersonSummary");
    assert_eq!(snake_to_pascal("age"), "Age");
    assert_eq!(snake_to_pascal("published_at"), "PublishedAt");
    assert_eq!(snake_to_pascal(""), "");
    assert_eq!(snake_to_pascal("_leading"), "Leading");
}

#[test]
fn only_in_self_keeps_field_in_canonical_only() {
    // Canonical Person { name: String, age: u8 }, variant "PersonSummary",
    // age marked only_in_self.
    let input = record(
        "Person",
        vec![],
        vec![
            field("name", "String", vec![]),
            field("age", "u8", vec![flag("only_in_self")]),
        ],
        &["PersonSummary"],
    );
    let d = derive_family(&input).expect("derivation must succeed");
    assert_eq!(field_names_of(variant(&d, "Person")), vec![s("name"), s("age")]);
    assert_eq!(field_names_of(variant(&d, "PersonSummary")), vec![s("name")]);

    // Person needs age, which PersonSummary lacks and which has no default:
    // no unconditional conversion, only the argument-taking methods.
    let up = pair(&d, "Person", "PersonSummary");
    assert!(up.from.is_none());
    let into_all = up.into_all.as_ref().expect("required-arguments conversion");
    assert_eq!(into_all.method, "into_person");
    assert_eq!(into_all.args.len(), 1);
    assert_eq!(into_all.args[0].name, "age");
    assert_eq!(into_all.args[0].ty, "u8");
    assert_eq!(into_all.copied, vec![s("name")]);
    let into_defaults = up.into_defaults.as_ref().expect("defaults-favoring conversion");
    assert_eq!(into_defaults.method, "into_person_defaults");
    assert_eq!(into_defaults.args.len(), 1);

    // The other direction drops age: unconditional, nothing defaulted.
    let down = pair(&d, "PersonSummary", "Person");
    let from = down.from.as_ref().expect("unconditional conversion");
    assert_eq!(from.copied, vec![s("name")]);
    assert!(from.defaulted.is_empty());
}

#[test]
fn default_flag_turns_missing_field_into_fallback() {
    // Same shape, but age additionally carries `default`: now an
    // unconditional PersonSummary -> Person conversion exists, with age
    // synthesized from its fallback value.
    let input = record(
        "Person",
        vec![],
        vec![
            field("name", "String", vec![]),
            field("age", "u8", vec![flag("only_in_self"), flag("default")]),
        ],
        &["PersonSummary"],
    );
    let d = derive_family(&input).expect("derivation must succeed");
    let up = pair(&d, "Person", "PersonSummary");
    let from = up.from.as_ref().expect("unconditional conversion via default");
    assert_eq!(from.copied, vec![s("name")]);
    assert_eq!(from.defaulted, vec![s("age")]);
    // The explicit escape hatch still exists alongside.
    let into_all = up.into_all.as_ref().expect("required-arguments conversion");
    assert_eq!(into_all.args.len(), 1);
    let into_defaults = up.into_defaults.as_ref().expect("defaults-favoring conversion");
    assert!(into_defaults.args.is_empty());
    assert_eq!(into_defaults.defaulted, vec![s("age")]);
}

#[test]
fn not_in_excludes_field_and_requires_it_back() {
    let input = record(
        "Canonical",
        vec![],
        vec![
            field("title", "String", vec![]),
            field("published_at", "Timestamp", vec![list("not_in", &["Draft"])]),
        ],
        &["Draft"],
    );
    let d = derive_family(&input).expect("derivation must succeed");
    assert_eq!(field_names_of(variant(&d, "Draft")), vec![s("title")]);

    // Draft implements the absence marker for published_at.
    let cap = d
        .capabilities
        .iter()
        .find(|c| c.field_name == "published_at")
        .expect("capability per field");
    assert_eq!(cap.trait_name, "HasPublishedAt");
    assert_eq!(cap.neg_trait_name, "HasNoPublishedAt");
    assert_eq!(cap.setter_name, "set_published_at");
    assert!(cap.implementors.contains(&s("Canonical")));
    assert!(cap.absentees.contains(&s("Draft")));
    assert!(!cap.implementors.contains(&s("Draft")));

    // Canonical -> Draft drops the field; Draft -> Canonical requires it.
    let down = pair(&d, "Draft", "Canonical");
    assert!(down.from.is_some());
    let up = pair(&d, "Canonical", "Draft");
    assert!(up.from.is_none());
    let into_all = up.into_all.as_ref().expect("required-arguments conversion");
    assert_eq!(into_all.args[0].name, "published_at");
    assert_eq!(into_all.args[0].ty, "Timestamp");
}

#[test]
fn no_directives_means_everything_everywhere() {
    let input = record(
        "Base",
        vec![],
        vec![field("a", "u8", vec![]), field("b", "u16", vec![])],
        &["Left", "Right"],
    );
    let d = derive_family(&input).expect("derivation must succeed");
    assert_eq!(d.variants.len(), 3);
    for v in &d.variants {
        assert_eq!(field_names_of(v), vec![s("a"), s("b")]);
    }
    for cap in &d.capabilities {
        assert_eq!(cap.implementors.len(), 3);
        assert!(cap.absentees.is_empty());
    }
    // Every ordered pair gets an unconditional identity-like copy and no
    // argument-taking methods.
    assert_eq!(d.conversions.len(), 6);
    for p in &d.conversions {
        let from = p.from.as_ref().expect("unconditional conversion");
        assert_eq!(from.copied, vec![s("a"), s("b")]);
        assert!(from.defaulted.is_empty());
        assert!(p.into_all.is_none());
        assert!(p.into_defaults.is_none());
    }
}

#[test]
fn undeclared_variant_in_only_in_fails() {
    let input = record(
        "Base",
        vec![],
        vec![field("a", "u8", vec![list("only_in", &["X"])])],
        &[],
    );
    match derive_family(&input) {
        Err(DeriveError::UnknownVariant(n)) => assert_eq!(n, "X"),
        other => panic!("expected UnknownVariant, got {:?}", other.map(|_| ())),
    }
}

#[test]
fn only_in_lists_the_receiving_variants() {
    let input = record(
        "Base",
        vec![],
        vec![
            field("a", "u8", vec![list("only_in", &["Left"])]),
            field("b", "u16", vec![]),
        ],
        &["Left", "Right"],
    );
    let d = derive_family(&input).expect("derivation must succeed");
    assert_eq!(field_names_of(variant(&d, "Left")), vec![s("a"), s("b")]);
    assert_eq!(field_names_of(variant(&d, "Right")), vec![s("b")]);
    // The allow-list is an intersection: the canonical record itself is not
    // added implicitly.
    assert_eq!(field_names_of(variant(&d, "Base")), vec![s("b")]);
}

#[test]
fn conflicting_inclusion_directives_fail() {
    let input = record(
        "Base",
        vec![],
        vec![field(
            "a",
            "u8",
            vec![list("only_in", &["Left"]), list("not_in", &["Left"])],
        )],
        &["Left"],
    );
    match derive_family(&input) {
        Err(DeriveError::ConflictingDirective(n)) => assert_eq!(n, "not_in"),
        other => panic!("expected ConflictingDirective, got {:?}", other.map(|_| ())),
    }
}

#[test]
fn unknown_directive_is_malformed() {
    let input = record(
        "Base",
        vec![],
        vec![field("a", "u8", vec![flag("sometimes_in")])],
        &[],
    );
    match derive_family(&input) {
        Err(DeriveError::MalformedAnnotation(n)) => assert_eq!(n, "sometimes_in"),
        other => panic!("expected MalformedAnnotation, got {:?}", other.map(|_| ())),
    }
}

#[test]
fn empty_only_in_is_malformed() {
    let input = record("Base", vec![], vec![field("a", "u8", vec![list("only_in", &[])])], &[]);
    assert!(matches!(derive_family(&input), Err(DeriveError::MalformedAnnotation(_))));
}

#[test]
fn non_string_directive_argument_is_malformed() {
    let input = record(
        "Base",
        vec![],
        vec![field(
            "a",
            "u8",
            vec![RawAttr::Directive(Directive {
                name: s("only_in"),
                args: Some(vec![DirectiveArg::Other]),
            })],
        )],
        &[],
    );
    assert!(matches!(derive_family(&input), Err(DeriveError::MalformedAnnotation(_))));
}

#[test]
fn unnamed_field_fails() {
    let input = record("Base", vec![], vec![field("", "u8", vec![])], &[]);
    assert!(matches!(derive_family(&input), Err(DeriveError::UnnamedField)));
}

#[test]
fn attr_for_decorates_the_named_variant() {
    let input = record(
        "Base",
        vec![
            RawAttr::Plain(s("derive(Debug)")),
            list("attr_for", &["Light", "derive(Default)"]),
        ],
        vec![field("a", "u8", vec![])],
        &["Light"],
    );
    let d = derive_family(&input).expect("derivation must succeed");
    assert_eq!(variant(&d, "Base").decorations, vec![s("derive(Debug)")]);
    assert_eq!(variant(&d, "Light").decorations, vec![s("derive(Default)")]);
}

#[test]
fn attr_for_unknown_variant_fails() {
    let input = record(
        "Base",
        vec![list("attr_for", &["Ghostly", "derive(Default)"])],
        vec![field("a", "u8", vec![])],
        &[],
    );
    match derive_family(&input) {
        Err(DeriveError::UnknownVariant(n)) => assert_eq!(n, "Ghostly"),
        other => panic!("expected UnknownVariant, got {:?}", other.map(|_| ())),
    }
}

#[test]
fn attr_for_needs_two_string_arguments() {
    let input = record(
        "Base",
        vec![list("attr_for", &["OnlyOne"])],
        vec![field("a", "u8", vec![])],
        &["OnlyOne"],
    );
    assert!(matches!(derive_family(&input), Err(DeriveError::MalformedAnnotation(_))));
}

#[test]
fn directive_annotations_are_stripped_from_fields() {
    let input = record(
        "Base",
        vec![],
        vec![field(
            "a",
            "u8",
            vec![
                RawAttr::Plain(s("serde(rename = \"A\")")),
                flag("default"),
            ],
        )],
        &["Light"],
    );
    let d = derive_family(&input).expect("derivation must succeed");
    let f = &variant(&d, "Base").fields[0];
    assert_eq!(f.decorations, vec![s("serde(rename = \"A\")")]);
    assert!(f.default);
}

#[test]
fn duplicate_variant_declaration_keeps_one_entry() {
    let input = record("Base", vec![], vec![field("a", "u8", vec![])], &["Twin", "Twin"]);
    let d = derive_family(&input).expect("derivation must succeed");
    assert_eq!(d.variants.len(), 2);
    assert_eq!(d.variants.iter().filter(|v| v.name == "Twin").count(), 1);
}

#[test]
fn field_order_is_preserved_in_every_variant() {
    let input = record(
        "Base",
        vec![],
        vec![
            field("one", "u8", vec![]),
            field("two", "u8", vec![list("only_in", &["Odd"])]),
            field("three", "u8", vec![]),
            field("four", "u8", vec![list("not_in", &["Odd"])]),
        ],
        &["Odd"],
    );
    let d = derive_family(&input).expect("derivation must succeed");
    assert_eq!(
        field_names_of(variant(&d, "Odd")),
        vec![s("one"), s("two"), s("three")],
    );
    assert_eq!(field_names_of(variant(&d, "Base")), vec![s("one"), s("three"), s("four")]);
}

#[test]
fn round_trip_shared_fields_are_all_copied() {
    // Base has everything, Slim a subset; everything extra is defaulted, so
    // the defaults-favoring conversion Slim -> Base takes no arguments and
    // copies every Slim field.
    let input = record(
        "Base",
        vec![],
        vec![
            field("kept", "u8", vec![]),
            field("extra", "u8", vec![flag("default"), list("not_in", &["Slim"])]),
        ],
        &["Slim"],
    );
    let d = derive_family(&input).expect("derivation must succeed");
    let up = pair(&d, "Base", "Slim");
    let m = up.into_defaults.as_ref().expect("defaults-favoring conversion");
    assert!(m.args.is_empty());
    assert_eq!(m.copied, vec![s("kept")]);
    assert_eq!(m.defaulted, vec![s("extra")]);
    // Projecting back: the copied set covers every Slim field.
    for name in field_names_of(variant(&d, "Slim")) {
        assert!(m.copied.contains(&name));
    }
}

#[test]
fn common_copy_is_symmetric() {
    let input = record(
        "Base",
        vec![],
        vec![
            field("shared", "u8", vec![]),
            field("left_only", "u8", vec![list("only_in", &["Left"])]),
            field("right_only", "u8", vec![list("only_in", &["Right"])]),
        ],
        &["Left", "Right"],
    );
    let d = derive_family(&input).expect("derivation must succeed");
    let fwd = pair(&d, "Left", "Right");
    let bwd = pair(&d, "Right", "Left");
    let fm = fwd.into_all.as_ref().expect("conversion with arguments");
    let bm = bwd.into_all.as_ref().expect("conversion with arguments");
    assert_eq!(fm.copied, vec![s("shared")]);
    assert_eq!(bm.copied, vec![s("shared")]);
}

#[test]
fn method_names_use_snake_case_of_target() {
    let input = record(
        "Person",
        vec![],
        vec![
            field("name", "String", vec![]),
            field("bio", "String", vec![list("only_in", &["PersonSummary"])]),
        ],
        &["PersonSummary"],
    );
    let d = derive_family(&input).expect("derivation must succeed");
    let up = pair(&d, "PersonSummary", "Person");
    assert_eq!(up.into_all.as_ref().unwrap().method, "into_person_summary");
    assert_eq!(
        up.into_defaults.as_ref().unwrap().method,
        "into_person_summary_defaults"
    );
}

#[test]
fn capability_coverage_partitions_the_variants() {
    let input = record(
        "Base",
        vec![],
        vec![
            field("a", "u8", vec![list("only_in", &["Left"])]),
            field("b", "u8", vec![flag("only_in_self")]),
        ],
        &["Left", "Right"],
    );
    let d = derive_family(&input).expect("derivation must succeed");
    for cap in &d.capabilities {
        let mut all: Vec<String> = cap.implementors.clone();
        all.extend(cap.absentees.iter().cloned());
        all.sort();
        let mut names: Vec<String> = d.variants.iter().map(|v| v.name.clone()).collect();
        names.sort();
        assert_eq!(all, names);
        for i in &cap.implementors {
            assert!(!cap.absentees.contains(i));
        }
    }
    let cap_b = d.capabilities.iter().find(|c| c.field_name == "b").unwrap();
    assert_eq!(cap_b.implementors, vec![s("Base")]);
}
