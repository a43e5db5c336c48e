use cairo_stack::builtins::{
    get_function_builtins, has_type_named, Builtin, BuiltinOffsets, GenericType, TypeDecl,
};

fn named(name: Option<&str>) -> TypeDecl {
    TypeDecl {
        id: 0,
        debug_name: name.map(|n| n.to_string()),
        generic: Some(GenericType::Other),
        size: Some(1),
    }
}

fn signature(names: &[&str]) -> Vec<TypeDecl> {
    names.iter().map(|n| named(Some(n))).collect()
}

#[test]
fn offsets_follow_the_fixed_order_from_three() {
    let all = signature(&["Pedersen", "RangeCheck", "Bitwise", "EcOp", "Poseidon"]);
    let (builtins, offsets) = get_function_builtins(&all);
    assert_eq!(
        offsets,
        BuiltinOffsets {
            poseidon: Some(3),
            ec_op: Some(4),
            bitwise: Some(5),
            range_check: Some(6),
            pedersen: Some(7),
        }
    );
    assert_eq!(
        builtins,
        vec![
            Builtin::Pedersen,
            Builtin::RangeCheck,
            Builtin::Bitwise,
            Builtin::EcOp,
            Builtin::Poseidon,
        ]
    );
}

#[test]
fn offsets_do_not_depend_on_the_order_of_the_parameters() {
    let one = signature(&["RangeCheck", "felt252", "Poseidon", "Pedersen"]);
    let other = signature(&["Pedersen", "Poseidon", "RangeCheck", "felt252", "Poseidon"]);
    assert_eq!(get_function_builtins(&one), get_function_builtins(&other));
    let (builtins, offsets) = get_function_builtins(&one);
    assert_eq!(builtins, vec![Builtin::Pedersen, Builtin::RangeCheck, Builtin::Poseidon]);
    assert_eq!(offsets.get(Builtin::Poseidon), Some(3));
    assert_eq!(offsets.get(Builtin::RangeCheck), Some(4));
    assert_eq!(offsets.get(Builtin::Pedersen), Some(5));
    assert_eq!(offsets.get(Builtin::EcOp), None);
    assert_eq!(offsets.get(Builtin::Bitwise), None);
    assert_eq!(offsets.get(Builtin::Output), None);
    assert_eq!(offsets.get(Builtin::Ecdsa), None);
}

#[test]
fn only_exact_names_count() {
    let params = vec![
        named(None),
        named(Some("rangecheck")),
        named(Some("RangeCheck ")),
        named(Some("Output")),
        named(Some("Ecdsa")),
        named(Some("EcOp")),
    ];
    let (builtins, offsets) = get_function_builtins(&params);
    assert_eq!(builtins, vec![Builtin::EcOp]);
    assert_eq!(
        offsets,
        BuiltinOffsets {
            poseidon: None,
            ec_op: Some(3),
            bitwise: None,
            range_check: None,
            pedersen: None,
        }
    );
    assert!(has_type_named(&params, "Output"));
    assert!(!has_type_named(&params, "RangeCheck"));
    assert!(!has_type_named(&vec![], "RangeCheck"));
}

#[test]
fn a_signature_without_builtins_requires_none() {
    let (builtins, offsets) = get_function_builtins(&signature(&["felt252", "Array<felt252>"]));
    assert_eq!(builtins, vec![]);
    assert_eq!(
        offsets,
        BuiltinOffsets { poseidon: None, ec_op: None, bitwise: None, range_check: None, pedersen: None }
    );
}
