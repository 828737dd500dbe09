use siko::environment::{Environment, ValueKind, Variable};
use siko::ir_data::{Class, Enum};
use siko::ir_type::{Type, TypeVar};
use siko::lowering::convertName;
use siko::minic_type::Type as MinicType;
use siko::mir_type::Type as MirType;
use siko::qualifiedname::{
    build, getBoolTypeName, getDropFnName, getIntAddName, getStdBasicUtilAbortName, getTrueName,
    getVecPushName, u64ToString, QualifiedName,
};

#[test]
fn renders_item_chains() {
    assert_eq!(build("Int", "Int").toString().as_str(), "Int.Int");
    assert_eq!(getIntAddName().toString().as_str(), "Int.Int.add");
    assert_eq!(getTrueName().toString().as_str(), "Bool.Bool.True");
    assert_eq!(getDropFnName().toString().as_str(), "Std.Ops.Drop.drop");
    assert_eq!(
        getStdBasicUtilAbortName().toString().as_str(),
        "Std.Basic.Util.abort"
    );
    assert_eq!(getVecPushName().toString().as_str(), "Vec.Vec.push");
}

#[test]
fn renders_instances_and_monomorphized_forms() {
    let base = build("M", "f");
    let inst = QualifiedName::Instance(Box::new(base.clone()), 12);
    assert_eq!(inst.toString().as_str(), "M.f/12");
    let mono_empty = base.monomorphized("".to_string());
    assert_eq!(mono_empty.toString().as_str(), "M.f");
    let mono = base.monomorphized("Int.Int".to_string());
    assert_eq!(mono.toString().as_str(), "M.f#Int.Int");
}

#[test]
fn renders_decimals() {
    assert_eq!(u64ToString(0).as_str(), "0");
    assert_eq!(u64ToString(7).as_str(), "7");
    assert_eq!(u64ToString(120).as_str(), "120");
    assert_eq!(u64ToString(18446744073709551615).as_str(), "18446744073709551615");
}

#[test]
fn name_navigation() {
    let n = build("Std.Ops", "Clone").add("clone".to_string());
    assert_eq!(n.module().toString().as_str(), "Std.Ops");
    assert_eq!(n.base().toString().as_str(), "Std.Ops.Clone");
    let m = QualifiedName::Module("Std".to_string());
    assert_eq!(m.base().toString().as_str(), "Std");
    assert_eq!(m.module().toString().as_str(), "Std");
}

#[test]
fn name_equality_is_structural() {
    assert!(build("A", "b") == build("A", "b"));
    assert!(build("A", "b") != build("A", "c"));
    assert!(build("A", "b") != QualifiedName::Module("A.b".to_string()));
}

#[test]
fn converts_names_for_emission() {
    assert_eq!(convertName(&getIntAddName()).as_str(), "Int_Int_add");
    assert_eq!(
        convertName(&getStdBasicUtilAbortName()).as_str(),
        "Std_Basic_Util_abort"
    );
    let mono = build("M", "f").monomorphized("(Int.Int, Bool.Bool)".to_string());
    assert_eq!(convertName(&mono).as_str(), "M_f_Int_Int__Bool_Bool");
}

#[test]
fn split_function_type() {
    let f = Type::Function(
        vec![Type::Var(TypeVar::Var(1))],
        Box::new(Type::Named(getBoolTypeName(), Vec::new())),
    );
    let (args, result) = f.splitFnType();
    assert_eq!(args.len(), 1);
    assert!(matches!(result, Type::Named(_, _)));
}

#[test]
fn collect_vars_in_traversal_order() {
    let t = Type::Function(
        vec![
            Type::Var(TypeVar::Var(2)),
            Type::Tuple(vec![Type::Var(TypeVar::Named("a".to_string()))]),
        ],
        Box::new(Type::Var(TypeVar::Var(2))),
    );
    let vars = t.collectVars(Vec::new());
    assert_eq!(vars.len(), 3);
    assert!(matches!(vars[0], TypeVar::Var(2)));
    assert!(matches!(&vars[1], TypeVar::Named(n) if n.as_str() == "a"));
    assert!(matches!(vars[2], TypeVar::Var(2)));
}

#[test]
fn builtin_types() {
    assert!(matches!(Type::getBoolType(), Type::Named(_, _)));
    assert!(matches!(Type::getUnitType(), Type::Tuple(v) if v.is_empty()));
}

#[test]
fn fresh_class_and_enum_are_empty() {
    let c = Class::new(build("M", "C"), Type::SelfType);
    assert!(c.fields.is_empty());
    assert!(c.methods.is_empty());
    let e = Enum::new(build("M", "E"), Type::SelfType);
    assert!(e.variants.is_empty());
    assert!(e.methods.is_empty());
}

#[test]
fn minic_type_queries() {
    let arr = MinicType::Array(4, 8);
    assert!(arr.isArray());
    assert!(!arr.isPtr());
    assert_eq!(arr.getArraySize(), 4);
    let p = MinicType::Ptr(Box::new(MinicType::Struct("S".to_string())));
    assert!(p.isPtr());
    assert_eq!(p.getName().unwrap().as_str(), "S");
    assert!(MinicType::Int64.getName().is_none());
}

#[test]
fn mir_simple_types() {
    assert!(MirType::Void.isSimple());
    assert!(MirType::Char.isSimple());
    assert!(MirType::Int32.isSimple());
    assert!(!MirType::Struct("S".to_string()).isSimple());
    assert!(!MirType::Union("U".to_string()).isSimple());
    assert!(!MirType::Ptr(Box::new(MirType::Int8)).isSimple());
}

#[test]
fn environment_resolves_and_shadows() {
    let mut outer = Environment::new();
    outer.addArg("a".to_string(), 0);
    outer.addValue(
        "x".to_string(),
        Variable { value: "x1".to_string() },
    );
    match outer.resolve(&"a".to_string()) {
        Some(ValueKind::Arg(name, index)) => {
            assert_eq!(name.as_str(), "a");
            assert_eq!(index, 0);
        },
        _ => panic!("argument must resolve in its own scope"),
    }
    // A newer binding of the same name shadows the older one.
    outer.addValue(
        "x".to_string(),
        Variable { value: "x2".to_string() },
    );
    match outer.resolve(&"x".to_string()) {
        Some(ValueKind::Value(v)) => assert_eq!(v.value.as_str(), "x2"),
        _ => panic!("value must resolve to its newest binding"),
    }
    assert!(outer.resolve(&"missing".to_string()).is_none());
}

#[test]
fn child_scope_sees_parent_bindings() {
    let mut outer = Environment::new();
    outer.addValue(
        "x".to_string(),
        Variable { value: "x1".to_string() },
    );
    let mut inner = Environment::child(&outer);
    inner.addTmpValue(Variable { value: "tmp".to_string() });
    match inner.resolve(&"x".to_string()) {
        Some(ValueKind::Value(v)) => assert_eq!(v.value.as_str(), "x1"),
        _ => panic!("a child scope must see its parent's bindings"),
    }
    match inner.resolve(&"tmp".to_string()) {
        Some(ValueKind::Value(v)) => assert_eq!(v.value.as_str(), "tmp"),
        _ => panic!("a temporary binds under its own name"),
    }
    // The inner binding does not leak outward.
    assert!(outer.resolve(&"tmp".to_string()).is_none());
}
