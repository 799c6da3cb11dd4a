use ruda::ast::ValueType;
use ruda::codegen::{
    find_array_method, find_fun, find_import, find_primitive_method, find_struct, find_userdata, gen_all_fun_ids,
    get_kind, CodegenError, CompoundField, FunctionKind, Position,
};
use ruda::context::{prep, Context, PrepError};
use ruda::lexer::Line;
use ruda::libloader::{Dictionary as BinDictionary, Function as BinFunction, MemoryTypes, UserData};
use ruda::types::{
    ConstValue, Constant, Dictionary, Function, Import, ImportKinds, InnerPath, Kind, KindType, Struct, TypeBody,
};

fn line(l: usize, c: usize) -> Line {
    Line { line: l, column: c }
}

fn fun(name: &str) -> Function {
    Function {
        identifier: Some(name.to_string()),
        args: vec![],
        stack_size: None,
        location: 0,
        instrs_end: 0,
        return_type: None,
        can_yeet: false,
        generics: vec![],
        public: true,
        code: vec![],
        line: line(1, 0),
        pointers: None,
        id: 99,
        takes_self: false,
    }
}

fn strct(name: &str, methods: &[&str]) -> Struct {
    Struct {
        generics: vec![],
        identifier: name.to_string(),
        fields: vec![],
        traits: vec![],
        public: true,
        memory_layout: vec![],
        ptrs: 0,
        line: line(2, 0),
        impls: vec![],
        functions: methods.iter().map(|m| fun(m)).collect(),
        overloads: vec![],
        constructor: None,
    }
}

fn constant(name: &str) -> Constant {
    Constant {
        identifier: name.to_string(),
        location: 0,
        public: false,
        value: ValueType::Blank,
        real_value: None,
        line: line(0, 0),
    }
}

fn bin_fun(name: &str) -> BinFunction {
    BinFunction {
        name: name.to_string(),
        args: vec![("s".to_string(), Kind::void(), MemoryTypes::Stack(0), line(0, 0))],
        return_type: Kind::void(),
        errorable: false,
        assign: 0,
        takes_self: false,
    }
}

fn path(file: &str, block: Option<&str>, ident: &str, kind: ImportKinds) -> InnerPath {
    InnerPath { file: file.to_string(), block: block.map(|b| b.to_string()), ident: ident.to_string(), kind }
}

fn context() -> Context {
    let mut main = Dictionary::new();
    main.functions.push(fun("main"));
    main.functions.push(fun("helper"));
    main.structs.push(strct("Point", &["len", "scale"]));
    main.imports.push(Import { path: "#io".to_string(), alias: "io".to_string(), line: line(0, 0), kind: ImportKinds::Dll });
    main.constants.push(constant("A"));
    main.constants.push(constant("B"));
    main.constants.push(constant("A"));
    let mut other = Dictionary::new();
    other.functions.push(fun("util"));
    other.functions.push(fun("main"));
    let mut io = BinDictionary::new();
    io.functions.push(bin_fun("println"));
    io.user_data.push(UserData {
        name: "File".to_string(),
        assign: 0,
        generics: vec![],
        methods: vec![bin_fun("open")],
        overloads: vec![],
        impls: vec![],
        line: line(7, 0),
    });
    Context::new(vec![("main.rd".to_string(), main), ("other.rd".to_string(), other)], vec![("#io".to_string(), io)])
}

#[test]
fn the_main_path() {
    let m = InnerPath::main();
    assert_eq!(m.file, "main.rd");
    assert_eq!(m.ident, "main");
    assert!(m.block.is_none());
    assert_eq!(m.kind, ImportKinds::Rd);
}

#[test]
fn the_main_function() {
    let ctx = context();
    assert_eq!(ctx.get_main().identifier.as_deref(), Some("main"));
}

#[test]
fn finds_functions_by_path() {
    let ctx = context();
    let f_path = path("main.rd", None, "helper", ImportKinds::Rd);
    let f = f_path.get(&ctx);
    assert!(matches!(f, Ok(f) if f.identifier.as_deref() == Some("helper")));
    let m_path = path("main.rd", Some("Point"), "scale", ImportKinds::Rd);
    let m = m_path.get(&ctx);
    assert!(matches!(m, Ok(f) if f.identifier.as_deref() == Some("scale")));
    let missing_path = path("main.rd", None, "nope", ImportKinds::Rd);
    let missing = missing_path.get(&ctx);
    assert!(matches!(missing, Err(CodegenError::FunctionNotFound(p)) if p.ident == "nope"));
    let no_file_path = path("x.rd", None, "main", ImportKinds::Rd);
    let no_file = no_file_path.get(&ctx);
    assert!(matches!(no_file, Err(CodegenError::FunctionNotFound(_))));
}

#[test]
fn finds_functions_to_change() {
    let mut ctx = context();
    {
        let f_path = path("other.rd", None, "util", ImportKinds::Rd);
    let f = f_path.get_mut(&mut ctx).ok().unwrap();
        f.id = 7;
    }
    assert_eq!(ctx.0[1].1.functions[0].id, 7);
    {
        let f_path = path("main.rd", Some("Point"), "scale", ImportKinds::Rd);
    let f = f_path.get_mut(&mut ctx).ok().unwrap();
        f.id = 8;
    }
    assert_eq!(ctx.0[0].1.structs[0].functions[1].id, 8);
    let line_path = path("main.rd", Some("Line"), "len", ImportKinds::Rd);
    assert!(line_path.get_mut(&mut ctx).is_err());
}

#[test]
fn a_method_named_like_its_struct_is_found_first() {
    let mut d = Dictionary::new();
    d.structs.push(strct("Point", &["Point", "len"]));
    let mut ctx = Context::new(vec![("main.rd".to_string(), d)], vec![]);
    let f_path = path("main.rd", Some("Point"), "len", ImportKinds::Rd);
    let f = f_path.get_mut(&mut ctx).ok().unwrap();
    assert_eq!(f.identifier.as_deref(), Some("Point"));
}

#[test]
fn finds_functions_of_binaries() {
    let ctx = context();
    let f_path = path("#io", None, "println", ImportKinds::Dll);
    let f = f_path.get_bin(&ctx);
    assert!(matches!(f, Ok(f) if f.name == "println"));
    let m_path = path("#io", Some("File"), "open", ImportKinds::Dll);
    let m = m_path.get_bin(&ctx);
    assert!(matches!(m, Ok(f) if f.name == "open"));
    let close = path("#io", Some("File"), "close", ImportKinds::Dll);
    assert!(close.get_bin(&ctx).is_err());
    let fs = path("#fs", None, "println", ImportKinds::Dll);
    assert!(fs.get_bin(&ctx).is_err());
}

#[test]
fn finds_what_a_name_calls() {
    let ctx = context();
    assert!(matches!(find_fun(&ctx, "helper", "main.rd"), Some(FunctionKind::Fun(p)) if p.file == "main.rd" && p.ident == "helper" && p.kind == ImportKinds::Rd));
    assert!(matches!(find_fun(&ctx, "println", "#io"), Some(FunctionKind::Binary(p)) if p.file == "#io" && p.kind == ImportKinds::Dll));
    assert!(find_fun(&ctx, "nope", "main.rd").is_none());
    assert!(find_fun(&ctx, "helper", "x.rd").is_none());
}

#[test]
fn finds_imports_structs_and_user_data() {
    let ctx = context();
    assert_eq!(find_import(&ctx, "io", "main.rd"), Some(("#io", ImportKinds::Dll)));
    assert_eq!(find_import(&ctx, "fs", "main.rd"), None);
    assert!(matches!(find_struct(&ctx, "Point", "main.rd"), Some(("main.rd", s)) if s.functions.len() == 2));
    assert!(find_struct(&ctx, "Point", "other.rd").is_none());
    assert!(matches!(find_userdata(&ctx, "File", "#io"), Some(("#io", u)) if u.line == line(7, 0)));
    assert!(find_userdata(&ctx, "Dir", "#io").is_none());
}

#[test]
fn methods_of_primitives_and_arrays() {
    let mut ctx = context();
    let int = Kind::new(
        TypeBody::Type { refs: 0, main: vec!["int".to_string()], generics: vec![], nullable: false, kind: KindType::Primitive },
        line(0, 0),
        None,
    );
    let p = find_primitive_method(&mut ctx, &int, "abs", &line(3, 3)).ok().unwrap();
    assert_eq!(p.file, "#core");
    assert_eq!(p.ident, "intabs");
    assert_eq!(p.kind, ImportKinds::Dll);
    let s = Kind::from_struct("Point".to_string(), "main.rd".to_string(), line(0, 0));
    assert!(matches!(find_primitive_method(&mut ctx, &s, "len", &line(3, 3)), Err(CodegenError::CannotCallType(_, l)) if l == line(3, 3)));
    let a = find_array_method(&mut ctx, "push", &line(0, 0)).ok().unwrap();
    assert_eq!(a.ident, "arrpush");
    assert_eq!(a.file, "#core");
}

#[test]
fn types_of_names() {
    let ctx = context();
    let f = get_kind(&ctx, &path("main.rd", None, "helper", ImportKinds::Rd), &line(0, 0)).ok().unwrap();
    assert!(f.is_fun());
    assert_eq!(f.file, Some("main.rd".to_string()));
    let s = get_kind(&ctx, &path("main.rd", None, "Point", ImportKinds::Rd), &line(0, 0)).ok().unwrap();
    assert_eq!(s.get_type_kind(), Some(KindType::Struct));
    assert_eq!(s.line, line(2, 0));
    let b = get_kind(&ctx, &path("#io", None, "println", ImportKinds::Dll), &line(4, 4)).ok().unwrap();
    assert!(b.is_fun());
    assert_eq!(b.line, line(4, 4));
    let u = get_kind(&ctx, &path("#io", None, "File", ImportKinds::Dll), &line(0, 0)).ok().unwrap();
    assert_eq!(u.get_type_kind(), Some(KindType::UserData));
    let missing = get_kind(&ctx, &path("main.rd", None, "println", ImportKinds::Rd), &line(5, 5));
    assert!(matches!(missing, Err(CodegenError::KindNotFound(s, l)) if s == "println" && l == line(5, 5)));
}

#[test]
fn gives_every_function_an_id() {
    let mut ctx = context();
    let paths = gen_all_fun_ids(&mut ctx).ok().unwrap();
    let idents: Vec<(String, Option<String>, String)> =
        paths.iter().map(|p| (p.file.clone(), p.block.clone(), p.ident.clone())).collect();
    assert_eq!(
        idents,
        vec![
            ("main.rd".to_string(), None, "main".to_string()),
            ("main.rd".to_string(), None, "helper".to_string()),
            ("main.rd".to_string(), Some("Point".to_string()), "len".to_string()),
            ("main.rd".to_string(), Some("Point".to_string()), "scale".to_string()),
            ("other.rd".to_string(), None, "util".to_string()),
        ]
    );
    let main = &ctx.0[0].1;
    assert_eq!(main.functions[0].id, 0);
    assert_eq!(main.functions[1].id, 1);
    assert_eq!(main.structs[0].functions[0].id, 2);
    assert_eq!(main.structs[0].functions[1].id, 3);
    assert_eq!(ctx.0[1].1.functions[0].id, 4);
    assert_eq!(ctx.0[1].1.functions[1].id, 99);
}

#[test]
fn constants_get_their_values() {
    let mut ctx = context();
    assert!(prep(&mut ctx).is_ok());
    let c = &ctx.0[0].1.constants;
    assert!(matches!(c[0].real_value, Some(ConstValue::Int(0))));
    assert!(matches!(c[1].real_value, Some(ConstValue::Int(0))));
    assert!(c[2].real_value.is_none());
    let _unused: Option<PrepError> = None;
}

#[test]
fn kinds_of_positions() {
    let k = Position::Value(Kind::void()).get_kind();
    assert!(matches!(k, Ok(k) if k.is_void()));
    let f = Position::CompoundField(
        InnerPath::main(),
        CompoundField::Field("x".to_string()),
        Kind::from_struct("P".to_string(), "a.rd".to_string(), line(0, 0)),
    );
    assert!(matches!(f.get_kind(), Ok(k) if k.is_type()));
    let i = Position::Import("io".to_string()).get_kind();
    assert!(matches!(i, Err(CodegenError::CannotGetKind(Position::Import(s))) if s == "io"));
}
