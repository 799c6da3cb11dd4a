use ruda::ast::ValueType;
use ruda::codegen::CompoundField;
use ruda::lexer::{Line, Operators, Tokens};
use ruda::libloader::get_mem_loc;
use ruda::libloader::{Dictionary as BinDictionary, Function as BinFunction, MemoryTypes, Registers, UserData};
use ruda::types::{
    Arg, ConstValue, Constant, Dictionary, Function, IdentifierKinds, ImportKinds, Kind, KindType, Overload,
    ShTypeBuilder, ShallowType, Struct, TypeBody, TypeComparison,
};

fn line(l: usize, c: usize) -> Line {
    Line { line: l, column: c }
}

fn fun(name: &str) -> Function {
    Function {
        identifier: Some(name.to_string()),
        args: vec![],
        stack_size: None,
        location: 0,
        instrs_end: 0,
        return_type: None,
        can_yeet: false,
        generics: vec![],
        public: true,
        code: vec![],
        line: line(1, 0),
        pointers: None,
        id: 0,
        takes_self: false,
    }
}

fn plain(name: &str) -> ShallowType {
    ShTypeBuilder::new().set_name(name).build()
}

fn strct(name: &str, fields: &[&str], methods: &[&str]) -> Struct {
    Struct {
        generics: vec![],
        identifier: name.to_string(),
        fields: fields.iter().map(|f| (f.to_string(), Kind::void())).collect(),
        traits: vec![],
        public: true,
        memory_layout: vec![],
        ptrs: 0,
        line: line(2, 0),
        impls: vec![],
        functions: methods.iter().map(|m| fun(m)).collect(),
        overloads: vec![],
        constructor: None,
    }
}

#[test]
fn the_empty_and_the_null_type() {
    let e = ShallowType::empty();
    assert!(e.main.is_empty());
    assert_eq!(e.kind, KindType::NoKind);
    let n = ShallowType::null();
    assert_eq!(n.main, vec!["null".to_string()]);
    assert!(n.is_null());
    assert!(n.is_primitive());
    assert_eq!(n.get_ident(), "null");
}

#[test]
fn primitive_types_by_name() {
    let int = plain("int");
    assert!(int.is_primitive());
    assert!(int.is_number());
    assert!(!int.is_string());
    assert!(plain("string").is_string());
    assert!(plain("bool").is_bool());
    assert!(plain("uint").core_is_primitive());
    let refd = ShTypeBuilder::new().set_name("float").set_refs(2).set_nullable(true).build();
    assert!(refd.is_primitive());
    assert!(!refd.is_primitive_simple());
    assert!(!refd.is_number());
    let user = ShallowType::from_struct("Point".to_string(), "main.rd".to_string(), line(3, 1));
    assert!(!user.is_primitive());
    assert_eq!(user.kind, KindType::Struct);
    assert_eq!(user.file, Some("main.rd".to_string()));
    let marked = ShTypeBuilder::new().set_name("Point").set_kind(KindType::Primitive).build();
    assert!(marked.is_primitive_simple());
    assert!(!marked.core_is_primitive());
}

#[test]
fn the_builder_joins_path_and_name() {
    let t = ShTypeBuilder::new()
        .set_path(vec!["io".to_string()])
        .set_name("File")
        .set_array(1)
        .set_file("a.rd".to_string())
        .set_line(line(4, 2))
        .build();
    assert_eq!(t.main, vec!["io".to_string(), "File".to_string()]);
    assert_eq!(t.array_depth, 1);
    assert_eq!(t.get_ident(), "File");
    assert_eq!(t.line, line(4, 2));
    assert_eq!(t.kind, KindType::NoKind);
}

#[test]
fn compares_written_types() {
    assert!(plain("int").cmp(&plain("int")).is_equal());
    let a = ShTypeBuilder::new().set_name("int").set_refs(3).build();
    assert!(matches!(a.cmp(&plain("int")), TypeComparison::ReferenceDiff(3)));
    assert!(matches!(plain("int").cmp(&a), TypeComparison::ReferenceDiff(-3)));
    assert!(plain("int").cmp(&plain("char")).is_not_equal());
    let opt = ShTypeBuilder::new().set_name("Point").set_nullable(true).build();
    assert!(opt.cmp(&ShallowType::null()).is_equal());
    let p1 = ShallowType::from_struct("P".to_string(), "a.rd".to_string(), line(0, 0));
    let p2 = ShallowType::from_struct("P".to_string(), "b.rd".to_string(), line(0, 0));
    assert!(p1.cmp(&p2).is_not_equal());
}

#[test]
fn default_values_of_primitive_types() {
    assert!(matches!(plain("int").into_const(), Some(ConstValue::Int(0))));
    assert!(matches!(plain("char").into_const(), Some(ConstValue::Char(' '))));
    assert!(matches!(plain("float").into_const(), Some(ConstValue::Float(0))));
    assert!(matches!(plain("null").into_const(), Some(ConstValue::Null)));
    assert!(plain("Point").into_const().is_none());
    let arr = ShTypeBuilder::new().set_name("int").set_array(1).build();
    assert!(arr.into_const().is_none());
    let marked = ShTypeBuilder::new().set_name("thing").set_kind(KindType::Primitive).build();
    assert!(matches!(marked.into_const(), Some(ConstValue::Undefined)));
}

#[test]
fn types_of_constants() {
    let t = ConstValue::Usize(3).gen_type().unwrap();
    assert_eq!(t.main, vec!["uint".to_string()]);
    assert_eq!(t.kind, KindType::Primitive);
    let t = ConstValue::Array(vec![]).gen_type().unwrap();
    assert_eq!(t.array_depth, 1);
    assert!(t.main.is_empty());
    let t = ConstValue::Undefined.gen_type().unwrap();
    assert_eq!(t.kind, KindType::NoKind);
    assert!(ConstValue::Array(vec![]).is_array());
    assert!(!ConstValue::Null.is_array());
}

#[test]
fn resolved_types() {
    let s = Kind::from_struct("Point".to_string(), "main.rd".to_string(), line(1, 1));
    assert!(s.is_type());
    assert_eq!(s.get_type_kind(), Some(KindType::Struct));
    assert!(matches!(s.cmp(&Kind::from_struct("Point".to_string(), "main.rd".to_string(), line(9, 9))), TypeComparison::Equal));
    assert!(matches!(s.cmp(&Kind::void()), TypeComparison::NotEqual));
    assert!(Kind::void().is_void());
    let f = Kind::from_fun(&fun("go"), "main.rd".to_string());
    assert!(f.is_fun());
    assert_eq!(f.get_type_kind(), None);
    assert!(Kind::from_generic("T".to_string(), vec![], line(0, 0), None).is_generic());
    assert!(Kind::from_array(Kind::void(), 3, 0, false, line(0, 0), None).is_array());
}

#[test]
fn kinds_and_imports() {
    assert_eq!(KindType::UserData.to_import_kind(), Some(ImportKinds::Dll));
    assert_eq!(KindType::Fun.to_import_kind(), Some(ImportKinds::Rd));
    assert_eq!(KindType::Primitive.to_import_kind(), None);
    assert!(TypeComparison::Compatible.is_compatible());
    assert!(TypeComparison::ArrayDiff(1, 2).is_array_diff());
    assert!(TypeComparison::ReferenceDiff(1).is_reference_diff());
}

#[test]
fn a_name_is_registered_once() {
    let mut d = Dictionary::new();
    assert!(d.register_id("x".to_string(), IdentifierKinds::Variable));
    assert!(d.contains(&"x".to_string()));
    assert!(!d.register_id("x".to_string(), IdentifierKinds::Function));
    assert_eq!(d.identifiers.len(), 1);
    assert!(matches!(d.type_of("x"), Some(IdentifierKinds::Variable)));
    d.force_id("x".to_string(), IdentifierKinds::Function);
    assert_eq!(d.identifiers.len(), 2);
    assert_eq!(d.index_of("x".to_string()), Some(0));
    assert_eq!(d.index_of("y".to_string()), None);
    assert!(d.type_of("y").is_none());
}

#[test]
fn finds_constants() {
    let mut d = Dictionary::new();
    d.constants.push(Constant {
        identifier: "PI".to_string(),
        location: 4,
        public: true,
        value: ValueType::Blank,
        real_value: None,
        line: line(0, 0),
    });
    assert_eq!(d.find_const("PI").map(|c| c.location), Some(4));
    assert!(d.find_const("E").is_none());
}

#[test]
fn members_of_a_struct() {
    let s = strct("Point", &["x", "y"], &["len"]);
    assert!(matches!(s.get_field("y"), Some((CompoundField::Field(f), 1)) if f == "y"));
    assert!(matches!(s.get_field("len"), Some((CompoundField::Method(m), 0)) if m == "len"));
    assert!(s.get_field("z").is_none());
    let mut o = strct("Vec2", &[], &[]);
    o.overloads.push(Overload {
        operator: Tokens::Operator(Operators::Plus),
        arg: Arg { identifier: "rhs".to_string(), kind: Kind::void(), line: line(0, 0) },
        stack_size: None,
        location: None,
        return_type: None,
        generics: vec![],
        public: true,
        code: vec![],
        line: line(0, 0),
    });
    assert!(o.get_field("other").is_none());
}

#[test]
fn member_names() {
    assert_eq!(CompoundField::Field("a".to_string()).get_ident(), "a");
    assert_eq!(CompoundField::Method("m".to_string()).get_ident(), "m");
}

#[test]
fn registers_by_name() {
    let mut errors = Vec::new();
    assert_eq!(Registers::from_str("G1", &mut errors, line(0, 0)), Some(Registers::G1));
    assert_eq!(Registers::from_str("cPtr", &mut errors, line(0, 0)), Some(Registers::CodePtr));
    assert_eq!(Registers::from_str("args", &mut errors, line(0, 0)), Some(Registers::Args));
    assert!(errors.is_empty());
    assert_eq!(Registers::from_str("g4", &mut errors, line(5, 1)), None);
    assert_eq!(errors.len(), 1);
    assert!(matches!(&errors[0], ruda::types::ErrType::InvalidRegister(s, l) if s == "g4" && *l == line(5, 1)));
}

#[test]
fn places_move_on_the_stack() {
    assert_eq!(MemoryTypes::Stack(5).add(-2), MemoryTypes::Stack(3));
    assert_eq!(MemoryTypes::Stack(5).add(4), MemoryTypes::Stack(9));
    assert_eq!(MemoryTypes::Register(Registers::Ret).add(7), MemoryTypes::Register(Registers::Ret));
}

#[test]
fn functions_of_binary_libraries() {
    let f = BinFunction {
        name: "print".to_string(),
        args: vec![("s".to_string(), Kind::void(), MemoryTypes::Stack(0), line(1, 1))],
        return_type: Kind::void(),
        errorable: false,
        assign: 0,
        takes_self: false,
    };
    let a = Arg::from_barg(&f.args[0]);
    assert_eq!(a.identifier, "s");
    assert_eq!(a.line, line(1, 1));
    let k = Kind::bfrom_fun(&f, "#io".to_string(), line(2, 2));
    match &k.body {
        TypeBody::Function { args, return_type, refs } => {
            assert_eq!(args.len(), 1);
            assert_eq!(args[0].identifier, "s");
            assert!(return_type.is_some());
            assert_eq!(*refs, 0);
        }
        _ => panic!("not a function type"),
    }
    let t = ShallowType::bfrom_fun(&f, "#io".to_string());
    assert_eq!(t.main, vec!["print".to_string()]);
    assert_eq!(t.kind, KindType::BinFun);
    let ud = UserData {
        name: "File".to_string(),
        assign: 0,
        generics: vec![],
        methods: vec![f],
        overloads: vec![],
        impls: vec![],
        line: line(0, 0),
    };
    assert!(matches!(ud.get_field("print"), Some((CompoundField::Method(m), 0)) if m == "print"));
    assert!(ud.get_field("read").is_none());
    let d = BinDictionary::new();
    assert_eq!(d.id, 0);
    assert!(d.functions.is_empty());
}

#[test]
fn identifier_kinds_are_named_in_messages() {
    assert_eq!(ruda::types::IdentifierKinds::Function.to_string(), "function");
    assert_eq!(ruda::types::IdentifierKinds::Namespace.to_string(), "namespace");
    assert_eq!(ruda::types::IdentifierKinds::Error.to_string(), "error");
}

#[test]
fn grammar_file_errors_have_messages() {
    assert_eq!(ruda::AstType::Registry.to_string(), "registry");
    assert_eq!(ruda::AstGenError::NotFound(ruda::AstType::Ast).to_string(), "Could not find ast file.");
    assert_eq!(ruda::AstGenError::ParseError(ruda::AstType::Registry).to_string(), "Could not parse registry file.");
    assert_eq!(ruda::AstGenError::CouldNotOpen(ruda::AstType::Ast).to_string(), "Could not open ast file.");
}

fn leaf(t: &str) -> ruda::tree_walker::Node {
    ruda::tree_walker::Node { name: Tokens::Text(t.to_string()), data: None, nodes: Vec::new() }
}

fn with_parts(name: &str, parts: Vec<(&str, ruda::tree_walker::Node)>) -> ruda::tree_walker::Node {
    ruda::tree_walker::Node {
        name: Tokens::Text(name.to_string()),
        data: None,
        nodes: parts
            .into_iter()
            .map(|(k, v)| (k.to_string(), ruda::tree_walker::ArgNodeType::Value(v)))
            .collect(),
    }
}

fn arg_node(kind: &str, loc: &str) -> ruda::tree_walker::Node {
    let kind_node = with_parts("mem_kind", vec![("mem", leaf(kind))]);
    let mem = with_parts("mem", vec![("mem", kind_node), ("loc", leaf(loc))]);
    with_parts("arg", vec![("mem", mem)])
}

#[test]
fn arguments_of_binary_libraries_declare_their_place() {
    assert_eq!(get_mem_loc(&arg_node("stack", "4")), MemoryTypes::Stack(4));
    assert_eq!(get_mem_loc(&arg_node("STACK", "+12")), MemoryTypes::Stack(12));
    assert_eq!(get_mem_loc(&arg_node("Reg", "PTR")), MemoryTypes::Register(Registers::Ptr));
    assert_eq!(get_mem_loc(&arg_node("reg", "m2")), MemoryTypes::Register(Registers::M2));
    assert_eq!(get_mem_loc(&arg_node("reg", "nowhere")), MemoryTypes::Register(Registers::G1));
    assert_eq!(get_mem_loc(&arg_node("STAC\u{212A}", "0")), MemoryTypes::Stack(0));
}

#[test]
fn resolved_types_differing_in_references() {
    let a = Kind::from_type(ShTypeBuilder::new().set_name("int").set_refs(1).build(), line(0, 0), None);
    let b = Kind::from_type(ShTypeBuilder::new().set_name("int").build(), line(0, 0), None);
    assert!(matches!(a.cmp(&b), TypeComparison::ReferenceDiff(1)));
    assert!(a.cmp(&b).is_not_equal());
    assert!(matches!(b.cmp(&a), TypeComparison::ReferenceDiff(-1)));
    let c = Kind::from_type(ShTypeBuilder::new().set_name("char").build(), line(0, 0), None);
    assert!(matches!(b.cmp(&c), TypeComparison::NotEqual));
    let n = Kind::from_type(ShTypeBuilder::new().set_name("int").set_nullable(true).build(), line(0, 0), None);
    assert!(matches!(b.cmp(&n), TypeComparison::NotNullable));
    assert!(matches!(Kind::void().cmp(&b), TypeComparison::NotEqual));
    assert!(matches!(Kind::void().cmp(&Kind::void()), TypeComparison::Equal));
}

#[test]
fn moving_on_the_stack_composes() {
    let m = MemoryTypes::Stack(5);
    assert_eq!(m.add(3).add(-2), m.add(1));
    assert_eq!(m.add(-5), MemoryTypes::Stack(0));
    assert_eq!(MemoryTypes::Register(Registers::G2).add(7), MemoryTypes::Register(Registers::G2));
}
