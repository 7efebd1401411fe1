use derive_kit::bounds::{compute_trait_bounds, Generics, TypeParam, WherePredicate};
use derive_kit::builder::{derive as derive_builder, FieldData, InitialValue, Repeatable, SetterKind};
use derive_kit::builder_state::{BuilderState, Slot};
use derive_kit::debug::{debug_attrs, derive as derive_debug};
use derive_kit::schema::{AttrBody, AttrError, Attribute, Field, MetaItem, MetaValue};
use derive_kit::ty::{declaration_variant, variant_in_type, GenericVariant, Ty};

fn s(x: &str) -> String {
    x.to_string()
}

fn leaf(name: &str) -> Ty {
    Ty::Path { ident: s(name), args: vec![] }
}

fn app(name: &str, args: Vec<Ty>) -> Ty {
    Ty::Path { ident: s(name), args }
}

fn assoc(base: &str, item: &str) -> Ty {
    Ty::Assoc { base: s(base), item: s(item) }
}

fn field(name: &str, ty: Ty) -> Field {
    Field { name: Some(s(name)), ty, attrs: vec![] }
}

fn each(name: &str, value: &str, ty: Ty) -> Field {
    Field {
        name: Some(s(name)),
        ty,
        attrs: vec![Attribute {
            path: s("builder"),
            body: AttrBody::List(vec![MetaItem {
                key: s("each"),
                value: Some(MetaValue::Str(s(value))),
            }]),
        }],
    }
}

fn debug_field(name: &str, ty: Ty, pattern: &str) -> Field {
    Field {
        name: Some(s(name)),
        ty,
        attrs: vec![Attribute { path: s("debug"), body: AttrBody::NameValue(MetaValue::Str(s(pattern))) }],
    }
}

fn one_param(name: &str) -> Generics {
    Generics { params: vec![TypeParam { ident: s(name), bounds: vec![] }], predicates: vec![] }
}

fn setter_list(f: &FieldData) -> Vec<(String, bool)> {
    f.generate_setter()
        .into_iter()
        .map(|x| (x.name, matches!(x.kind, SetterKind::Append)))
        .collect()
}

#[test]
fn build_succeeds_iff_all_required_set() {
    let plan = derive_builder(vec![field("a", leaf("u32")), field("b", leaf("String"))]);
    assert!(plan.errors.is_empty());
    assert!(plan.fields.iter().all(|f| f.is_required()));

    let mut st: BuilderState<u32> = BuilderState::new(&plan.fields);
    st.set(0, 1);
    st.set(1, 2);
    let built = st.build(&plan.fields);
    assert!(matches!(&built, Ok(v) if v.len() == 2));
    if let Ok(v) = built {
        assert!(matches!(v[0], Slot::Value(1)));
        assert!(matches!(v[1], Slot::Value(2)));
    }

    let mut st: BuilderState<u32> = BuilderState::new(&plan.fields);
    st.set(1, 2);
    match st.build(&plan.fields) {
        Err(e) => assert_eq!(e.field, Some(s("a"))),
        Ok(_) => panic!("build must fail"),
    }

    let st: BuilderState<u32> = BuilderState::new(&plan.fields);
    match st.build(&plan.fields) {
        Err(e) => assert_eq!(e.field, Some(s("a"))),
        Ok(_) => panic!("build must fail"),
    }

    let mut st: BuilderState<u32> = BuilderState::new(&plan.fields);
    st.set(0, 1);
    match st.build(&plan.fields) {
        Err(e) => assert_eq!(e.field, Some(s("b"))),
        Ok(_) => panic!("build must fail"),
    }
}

#[test]
fn each_same_name_gives_one_setter() {
    let plan = derive_builder(vec![each("x", "x", app("Vec", vec![leaf("u8")]))]);
    let f = &plan.fields[0];
    assert!(matches!(&f.repeat, Repeatable::SingularOnly(n) if n == "x"));
    assert_eq!(setter_list(f), vec![(s("x"), true)]);
}

#[test]
fn each_other_name_gives_two_setters_and_appends_in_order() {
    let plan = derive_builder(vec![each("xs", "x", app("Vec", vec![leaf("u8")]))]);
    let f = &plan.fields[0];
    assert!(matches!(&f.repeat, Repeatable::SingularAndPlural(n) if n == "x"));
    assert_eq!(setter_list(f), vec![(s("xs"), false), (s("x"), true)]);

    let mut st: BuilderState<u8> = BuilderState::new(&plan.fields);
    st.append(0, 7);
    st.append(0, 8);
    st.append(0, 9);
    match st.build(&plan.fields) {
        Ok(v) => assert!(matches!(&v[0], Slot::Items(items) if *items == vec![7, 8, 9])),
        Err(_) => panic!("repeated fields are never required"),
    }

    let mut st: BuilderState<u8> = BuilderState::new(&plan.fields);
    st.append(0, 1);
    st.set_items(0, vec![4, 5]);
    match st.build(&plan.fields) {
        Ok(v) => assert!(matches!(&v[0], Slot::Items(items) if *items == vec![4, 5])),
        Err(_) => panic!("repeated fields are never required"),
    }
}

#[test]
fn each_on_non_sequence_is_ignored() {
    let plan = derive_builder(vec![each("x", "y", leaf("u8"))]);
    assert!(plan.errors.is_empty());
    assert!(matches!(plan.fields[0].repeat, Repeatable::No));
    assert_eq!(setter_list(&plan.fields[0]), vec![(s("x"), false)]);
}

#[test]
fn builder_annotation_errors() {
    let wrong_key = Field {
        name: Some(s("a")),
        ty: app("Vec", vec![leaf("u8")]),
        attrs: vec![Attribute {
            path: s("builder"),
            body: AttrBody::List(vec![MetaItem { key: s("eac"), value: Some(MetaValue::Str(s("a"))) }]),
        }],
    };
    let not_string = Field {
        name: Some(s("b")),
        ty: app("Vec", vec![leaf("u8")]),
        attrs: vec![Attribute {
            path: s("builder"),
            body: AttrBody::List(vec![MetaItem { key: s("each"), value: Some(MetaValue::Other) }]),
        }],
    };
    let bare = Field {
        name: Some(s("c")),
        ty: leaf("u8"),
        attrs: vec![Attribute { path: s("builder"), body: AttrBody::Word }],
    };
    let plan = derive_builder(vec![wrong_key, field("ok", leaf("u8")), not_string, bare]);
    assert_eq!(plan.errors.len(), 3);
    assert!(matches!(plan.errors[0], (0, AttrError::UnexpectedKey)));
    assert!(matches!(plan.errors[1], (2, AttrError::ExpectedString)));
    assert!(matches!(plan.errors[2], (3, AttrError::Malformed)));
    assert!(matches!(plan.fields[0].repeat, Repeatable::No));
    assert!(plan.fields[0].annotation_failed);
    assert!(setter_list(&plan.fields[0]).is_empty());
    assert!(setter_list(&plan.fields[2]).is_empty());
    assert!(setter_list(&plan.fields[3]).is_empty());
    assert!(!plan.fields[1].annotation_failed);
    assert_eq!(setter_list(&plan.fields[1]), vec![(s("ok"), false)]);
}

#[test]
fn end_to_end_builder() {
    let plan = derive_builder(vec![
        field("name", leaf("String")),
        field("id", app("Option", vec![leaf("i64")])),
        each("tag", "tag", app("Vec", vec![leaf("String")])),
    ]);
    let f = &plan.fields;
    assert!(f[0].is_required());
    assert!(!f[1].is_required() && f[1].optional);
    assert!(matches!(&f[1].ty, Ty::Path { ident, args } if ident == "i64" && args.is_empty()));
    assert!(!f[2].is_required());
    assert_eq!(setter_list(&f[0]), vec![(s("name"), false)]);
    assert_eq!(setter_list(&f[1]), vec![(s("id"), false)]);
    assert_eq!(setter_list(&f[2]), vec![(s("tag"), true)]);
    assert!(matches!(f[0].generate_builder_field(), InitialValue::Absent));
    assert!(matches!(f[1].generate_builder_field(), InitialValue::Absent));
    assert!(matches!(f[2].generate_builder_field(), InitialValue::EmptySequence));

    let mut st: BuilderState<&str> = BuilderState::new(f);
    st.set(0, "ann");
    st.append(2, "red");
    match st.build(f) {
        Ok(v) => {
            assert!(matches!(v[0], Slot::Value("ann")));
            assert!(matches!(v[1], Slot::Unset));
            assert!(matches!(&v[2], Slot::Items(items) if *items == vec!["red"]));
        },
        Err(_) => panic!("build must succeed"),
    }
}

#[test]
fn classifier_verdicts() {
    let t = s("T");
    assert!(matches!(variant_in_type(&leaf("T"), &t), GenericVariant::SameGeneric));
    assert!(matches!(variant_in_type(&leaf("U"), &t), GenericVariant::DifferentFromGeneric));
    assert!(matches!(variant_in_type(&Ty::Other, &t), GenericVariant::DifferentFromGeneric));
    let nested = app("Vec", vec![app("Box", vec![leaf("T")])]);
    assert!(matches!(variant_in_type(&nested, &t), GenericVariant::SameGeneric));
    let via_path = app("Vec", vec![assoc("T", "Item")]);
    assert!(matches!(variant_in_type(&via_path, &t),
        GenericVariant::Associative(b, i) if b == "T" && i == "Item"));
    let both = app("Pair", vec![leaf("T"), assoc("T", "Item")]);
    assert!(matches!(variant_in_type(&both, &t), GenericVariant::Associative(_, _)));
    assert!(matches!(variant_in_type(&assoc("U", "Item"), &t), GenericVariant::DifferentFromGeneric));
}

#[test]
fn prioritize_order() {
    assert!(matches!(GenericVariant::prioritize(GenericVariant::SameGeneric, GenericVariant::Phantom), GenericVariant::Phantom));
    assert!(matches!(GenericVariant::prioritize(GenericVariant::Phantom, GenericVariant::Associative(s("T"), s("A"))), GenericVariant::Phantom));
    assert!(matches!(GenericVariant::prioritize(GenericVariant::SameGeneric, GenericVariant::Associative(s("T"), s("A"))), GenericVariant::Associative(_, _)));
    assert!(matches!(GenericVariant::prioritize(GenericVariant::DifferentFromGeneric, GenericVariant::SameGeneric), GenericVariant::SameGeneric));
    assert!(matches!(GenericVariant::prioritize(GenericVariant::SameGeneric, GenericVariant::DifferentFromGeneric), GenericVariant::SameGeneric));
    assert!(matches!(GenericVariant::prioritize(GenericVariant::Associative(s("T"), s("B")), GenericVariant::Associative(s("T"), s("A"))),
        GenericVariant::Associative(_, i) if i == "A"));
    assert!(matches!(GenericVariant::prioritize(GenericVariant::Associative(s("T"), s("A")), GenericVariant::Associative(s("T"), s("B"))),
        GenericVariant::Associative(_, i) if i == "A"));
    assert!(matches!(GenericVariant::prioritize(GenericVariant::Associative(s("U"), s("A")), GenericVariant::Associative(s("T"), s("Z"))),
        GenericVariant::Associative(b, i) if b == "T" && i == "Z"));
    assert!(matches!(GenericVariant::prioritize(GenericVariant::Associative(s("T"), s("Z")), GenericVariant::Associative(s("U"), s("A"))),
        GenericVariant::Associative(b, i) if b == "T" && i == "Z"));
    assert!(matches!(GenericVariant::prioritize(GenericVariant::Associative(s("T"), s("It")), GenericVariant::Associative(s("T"), s("Item"))),
        GenericVariant::Associative(_, i) if i == "It"));
}

#[test]
fn same_generic_bound_and_idempotent_merge() {
    let types = vec![leaf("T"), leaf("u8")];
    let g = compute_trait_bounds(one_param("T"), &types);
    assert_eq!(g.params[0].bounds, vec![s("::std::fmt::Debug")]);
    assert!(g.predicates.is_empty());
    let g2 = compute_trait_bounds(g, &types);
    assert_eq!(g2.params[0].bounds, vec![s("::std::fmt::Debug")]);
    assert!(g2.predicates.is_empty());
}

#[test]
fn phantom_dominates_plain_use() {
    let types = vec![leaf("T"), app("PhantomData", vec![leaf("T")])];
    let t = s("T");
    assert!(matches!(declaration_variant(&types, &t), GenericVariant::Phantom));
    let g = compute_trait_bounds(one_param("T"), &types);
    assert!(g.params[0].bounds.is_empty());
    assert!(g.predicates.is_empty());
}

#[test]
fn phantom_of_other_parameter_does_not_suppress() {
    let types = vec![leaf("T"), app("PhantomData", vec![leaf("U")])];
    let g = Generics {
        params: vec![
            TypeParam { ident: s("T"), bounds: vec![] },
            TypeParam { ident: s("U"), bounds: vec![] },
        ],
        predicates: vec![],
    };
    let g = compute_trait_bounds(g, &types);
    assert_eq!(g.params[0].bounds, vec![s("::std::fmt::Debug")]);
    assert!(g.params[1].bounds.is_empty());
}

#[test]
fn associated_path_bound_goes_on_path() {
    let types = vec![app("Vec", vec![assoc("T", "Value")])];
    let g = Generics {
        params: vec![TypeParam { ident: s("T"), bounds: vec![s("Trait")] }],
        predicates: vec![],
    };
    let g = compute_trait_bounds(g, &types);
    assert_eq!(g.params[0].bounds, vec![s("Trait")]);
    assert_eq!(g.predicates.len(), 1);
    assert!(matches!(&g.predicates[0].bounded, Ty::Assoc { base, item } if base == "T" && item == "Value"));
    assert_eq!(g.predicates[0].bounds, vec![s("::std::fmt::Debug")]);

    let g = compute_trait_bounds(g, &types);
    assert_eq!(g.predicates.len(), 1);
    assert_eq!(g.predicates[0].bounds, vec![s("::std::fmt::Debug")]);
}

#[test]
fn associated_path_existing_predicate_gains_bound() {
    let types = vec![assoc("T", "Value")];
    let g = Generics {
        params: vec![TypeParam { ident: s("T"), bounds: vec![] }],
        predicates: vec![
            WherePredicate { bounded: leaf("T"), bounds: vec![s("Clone")] },
            WherePredicate { bounded: assoc("T", "Value"), bounds: vec![s("Clone")] },
        ],
    };
    let g = compute_trait_bounds(g, &types);
    assert!(g.params[0].bounds.is_empty());
    assert_eq!(g.predicates.len(), 2);
    assert_eq!(g.predicates[0].bounds, vec![s("Clone")]);
    assert_eq!(g.predicates[1].bounds, vec![s("Clone"), s("::std::fmt::Debug")]);
}

#[test]
fn debug_omits_phantom_fields_and_uses_patterns() {
    let fields = vec![
        debug_field("a", leaf("u8"), "0b{:08b}"),
        debug_field("marker", app("PhantomData", vec![leaf("T")]), "{}"),
        field("c", leaf("T")),
    ];
    let out = derive_debug(&s("Thing"), one_param("T"), fields);
    assert!(out.errors.is_empty());
    assert_eq!(out.implementation.struct_name, s("Thing"));
    let e = &out.implementation.entries;
    assert_eq!(e.len(), 2);
    assert_eq!(e[0].name, Some(s("a")));
    assert_eq!(e[0].pattern, s("0b{:08b}"));
    assert_eq!(e[1].name, Some(s("c")));
    assert_eq!(e[1].pattern, s("{:?}"));
    assert!(out.impl_data.generics.params[0].bounds.is_empty());
}

#[test]
fn debug_annotation_errors() {
    let bad = vec![Attribute { path: s("debug"), body: AttrBody::Word }];
    assert!(matches!(debug_attrs(&bad), Err(AttrError::Malformed)));
    let other = vec![Attribute { path: s("doc"), body: AttrBody::Word }];
    assert!(matches!(debug_attrs(&other), Ok(None)));
    let fields = vec![
        Field { name: Some(s("a")), ty: leaf("T"), attrs: bad },
        field("b", leaf("u8")),
    ];
    let out = derive_debug(&s("S"), one_param("T"), fields);
    assert_eq!(out.errors.len(), 1);
    assert!(matches!(out.errors[0], (0, AttrError::Malformed)));
    assert!(out.impl_data.fields[0].annotation_failed);
    assert_eq!(out.implementation.entries.len(), 1);
    assert_eq!(out.implementation.entries[0].name, Some(s("b")));
    assert_eq!(out.implementation.entries[0].pattern, s("{:?}"));
    assert_eq!(out.impl_data.generics.params[0].bounds, vec![s("::std::fmt::Debug")]);
}

#[test]
fn two_paths_inferred_twice_change_nothing() {
    let types = vec![assoc("T", "Item"), app("Vec", vec![assoc("U", "Out")]), leaf("V")];
    let g = Generics {
        params: vec![
            TypeParam { ident: s("T"), bounds: vec![] },
            TypeParam { ident: s("U"), bounds: vec![] },
            TypeParam { ident: s("V"), bounds: vec![s("Clone")] },
        ],
        predicates: vec![WherePredicate { bounded: assoc("U", "Out"), bounds: vec![s("Copy")] }],
    };
    let g1 = compute_trait_bounds(g, &types);
    assert_eq!(g1.predicates.len(), 2);
    assert_eq!(g1.predicates[0].bounds, vec![s("Copy"), s("::std::fmt::Debug")]);
    assert!(matches!(&g1.predicates[1].bounded, Ty::Assoc { base, item } if base == "T" && item == "Item"));
    assert_eq!(g1.predicates[1].bounds, vec![s("::std::fmt::Debug")]);
    assert_eq!(g1.params[2].bounds, vec![s("Clone"), s("::std::fmt::Debug")]);
    let g2 = compute_trait_bounds(g1, &types);
    assert_eq!(g2.predicates.len(), 2);
    assert_eq!(g2.predicates[0].bounds, vec![s("Copy"), s("::std::fmt::Debug")]);
    assert_eq!(g2.predicates[1].bounds, vec![s("::std::fmt::Debug")]);
    assert!(g2.params[0].bounds.is_empty() && g2.params[1].bounds.is_empty());
    assert_eq!(g2.params[2].bounds, vec![s("Clone"), s("::std::fmt::Debug")]);
}
