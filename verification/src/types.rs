//! The compiler's model of a program: parsed code, the objects that a file
//! defines, and the types of values.
use vstd::prelude::*;
use crate::ast::{Nodes, TreeTransformError, ValueType};
use crate::lexer::{text_eq, Line, Operators, Tokens};
use crate::libloader::{Function as BinFunction, MemoryTypes};
use crate::codegen::CompoundField;

verus! {

// ---------------------------------------------------------------------------
// Objects of a file
// ---------------------------------------------------------------------------

/// A path of identifiers: `a.b.c`.
pub type NestedIdent = Vec<String>;

/// Generic arguments.
pub type GenericExpr = Vec<Kind>;

/// How an import is loaded.
#[derive(Debug, Clone, Copy, PartialEq, Eq, Structural)]
pub enum ImportKinds {
    Dll,
    Rd,
}

/// What an identifier names.
#[derive(Debug, Clone, Copy, PartialEq, Eq, Structural)]
pub enum IdentifierKinds {
    Function,
    Type,
    Enum,
    Struct,
    Variable,
    Namespace,
    Trait,
    Error,
}

/// The word by which messages name each kind of identifier.
pub open spec fn identifier_kind_word(k: IdentifierKinds) -> Seq<char> {
    match k {
        IdentifierKinds::Function => "function"@,
        IdentifierKinds::Type => "type"@,
        IdentifierKinds::Enum => "enum"@,
        IdentifierKinds::Struct => "struct"@,
        IdentifierKinds::Variable => "variable"@,
        IdentifierKinds::Namespace => "namespace"@,
        IdentifierKinds::Trait => "trait"@,
        IdentifierKinds::Error => "error"@,
    }
}

impl IdentifierKinds {
    /// The word by which messages name this kind of identifier.
    pub fn to_string(&self) -> (r: String)
        ensures
            r@ == identifier_kind_word(*self),
    {
        match self {
            IdentifierKinds::Function => String::from_str("function"),
            IdentifierKinds::Type => String::from_str("type"),
            IdentifierKinds::Enum => String::from_str("enum"),
            IdentifierKinds::Struct => String::from_str("struct"),
            IdentifierKinds::Variable => String::from_str("variable"),
            IdentifierKinds::Namespace => String::from_str("namespace"),
            IdentifierKinds::Trait => String::from_str("trait"),
            IdentifierKinds::Error => String::from_str("error"),
        }
    }
}

/// What kind of object a type names.
#[derive(Debug, Clone, Copy, PartialEq, Eq, Structural)]
pub enum KindType {
    Struct,
    Enum,
    Trait,
    Fun,
    Primitive,
    UserData,
    Error,
    BinFun,
    SelfRef,
    /// not known yet
    NoKind,
}

/// A generic parameter with the traits it must have.
pub struct GenericDecl {
    pub identifier: String,
    pub traits: Vec<NestedIdent>,
}

/// An argument of a function.
pub struct Arg {
    pub identifier: String,
    pub kind: Kind,
    pub line: Line,
}

/// A function of a source file.
///
/// Its identifier will be changed to allow for overloads, by the rule
/// `"{identifier}:{args.foreach("{typeof}:")}"`.
pub struct Function {
    pub identifier: Option<String>,
    /// type of args in order
    pub args: Vec<Arg>,
    /// size needed to allocate on stack while function call (args included)
    pub stack_size: Option<usize>,
    /// location in bytecode, so runtime knows where to jump
    pub location: usize,
    pub instrs_end: usize,
    pub return_type: Option<Kind>,
    pub can_yeet: bool,
    pub generics: Vec<GenericDecl>,
    pub public: bool,
    pub code: Vec<Nodes>,
    pub line: Line,
    pub pointers: Option<usize>,
    pub id: usize,
    pub takes_self: bool,
}

/// An operator overload.
pub struct Overload {
    pub operator: Tokens,
    pub arg: Arg,
    pub stack_size: Option<usize>,
    pub location: Option<usize>,
    pub return_type: Option<Kind>,
    pub generics: Vec<GenericDecl>,
    pub public: bool,
    pub code: Vec<Nodes>,
    pub line: Line,
}

/// An enum of a source file: its values and their numbers.
pub struct Enum {
    pub identifier: String,
    pub keys: Vec<(String, usize, Line)>,
    pub methods: Vec<Function>,
    pub overloads: Vec<Overload>,
    pub line: Line,
}

/// A struct of a source file.
pub struct Struct {
    pub generics: Vec<GenericDecl>,
    pub identifier: String,
    pub fields: Vec<(String, Kind)>,
    pub traits: Vec<NestedIdent>,
    pub public: bool,
    pub memory_layout: Vec<(String, usize)>,
    /// number of pointers in struct
    pub ptrs: usize,
    pub line: Line,
    pub impls: Vec<Implementation>,
    pub functions: Vec<Function>,
    pub overloads: Vec<Overload>,
    /// index of function that is a constructor
    pub constructor: Option<usize>,
}

/// An `impl` block.
pub struct Implementation {
    pub target: NestedIdent,
    pub functions: Vec<Function>,
    pub overloads: Vec<Overload>,
    pub line: Line,
}

/// A global variable.
pub struct Variable {
    pub kind: Option<Kind>,
    pub identifier: String,
    /// location on stack
    pub location: usize,
    pub line: Line,
}

/// A constant value.  Floating-point values are held as their IEEE 754 bits.
pub enum ConstValue {
    Number(u64),
    Int(i64),
    Float(u64),
    Char(char),
    Bool(bool),
    Usize(usize),
    Function(Function),
    String(String),
    Null,
    Array(Vec<ConstValue>),
    Undefined,
}

/// A constant of a source file.
pub struct Constant {
    pub identifier: String,
    /// location on stack
    pub location: usize,
    pub public: bool,
    pub value: ValueType,
    pub real_value: Option<ConstValue>,
    pub line: Line,
}

/// An import of a source file.
pub struct Import {
    pub path: String,
    pub alias: String,
    pub line: Line,
    pub kind: ImportKinds,
}

/// A trait.
pub struct Trait {
    pub identifier: String,
    pub methods: Vec<Function>,
    pub overloads: Vec<Overload>,
    pub traits: Vec<NestedIdent>,
    pub public: bool,
    pub line: Line,
}

/// A type alias.
pub struct TypeDef {
    pub kind: Kind,
    pub identifier: String,
    pub generics: Vec<GenericDecl>,
    pub public: bool,
    pub overloads: Vec<Overload>,
    pub methods: Vec<Function>,
    pub line: Line,
}

/// What an error carries.
pub enum ErrorField {
    Expression(ValueType),
    CodeBlock(Vec<Nodes>),
}

/// An error type.
pub struct Error {
    pub identifier: String,
    pub src_loc: usize,
    pub fields: Vec<(String, ErrorField)>,
    pub args: Vec<Arg>,
    pub line: Line,
}

/// A part of a `use` path.
pub enum PathPart {
    Identifier(String),
    Asterisk,
}

/// A `use` item.
pub struct Use {
    pub path: Vec<PathPart>,
    pub alias: Option<String>,
    pub line: Line,
}

/// All of the objects (enums, structs, functions, ...) that a source file defines.
pub struct Dictionary {
    pub functions: Vec<Function>,
    pub types: Vec<TypeDef>,
    pub enums: Vec<Enum>,
    pub structs: Vec<Struct>,
    pub variables: Vec<Variable>,
    pub constants: Vec<Constant>,
    pub identifiers: Vec<(String, IdentifierKinds)>,
    pub imports: Vec<Import>,
    pub traits: Vec<Trait>,
    pub errors: Vec<Error>,
    pub uses: Vec<Use>,
}

// ---------------------------------------------------------------------------
// Types of values
// ---------------------------------------------------------------------------

/// A type as written in the source.
pub struct ShallowType {
    pub is_fun: Option<Box<Function>>,
    /// 0: not an array, 1: an array, 2: an array of arrays, ...
    pub array_depth: usize,
    pub refs: usize,
    pub main: NestedIdent,
    pub generics: GenericExpr,
    pub line: Line,
    pub nullable: bool,
    pub file: Option<String>,
    pub kind: KindType,
}

/// A builder of a `ShallowType`.
pub struct ShTypeBuilder {
    pub is_fun: Option<Box<Function>>,
    pub array_depth: usize,
    pub refs: usize,
    pub path: NestedIdent,
    pub generics: GenericExpr,
    pub line: Line,
    pub name: String,
    pub nullable: bool,
    pub file: Option<String>,
    pub kind: KindType,
}

/// The outcome of comparing two types.
pub enum TypeComparison {
    /// types are equal
    Equal,
    /// types are not equal
    NotEqual,
    /// types are not equal, but they are compatible
    Compatible,
    /// types will be equal after referencing or dereferencing
    ReferenceDiff(i32),
    /// both are arrays, but they have different lengths
    ArrayDiff(usize, usize),
    /// the other type is null while this does not allow null
    NotNullable,
}

/// A resolved type.
pub struct Kind {
    pub body: TypeBody,
    pub line: Line,
    pub file: Option<String>,
}

/// The shape of a resolved type.
pub enum TypeBody {
    Function { args: Vec<Arg>, return_type: Box<Option<Kind>>, refs: usize },
    Type { refs: usize, main: NestedIdent, generics: GenericExpr, nullable: bool, kind: KindType },
    Generic { identifier: String, constraints: Vec<InnerPath> },
    Array { type_: Box<Kind>, size: usize, refs: usize, nullable: bool },
    Void,
}

/// The place of a function: file, the struct it belongs to, and its name.
pub struct InnerPath {
    pub file: String,
    pub block: Option<String>,
    pub ident: String,
    pub kind: ImportKinds,
}


// ---------------------------------------------------------------------------
// Values of types, with strings as character sequences
// ---------------------------------------------------------------------------

/// The value of an `InnerPath`.
pub struct InnerPathV {
    pub file: Seq<char>,
    pub block: Option<Seq<char>>,
    pub ident: Seq<char>,
    pub kind: ImportKinds,
}

/// The value of an `Arg`.
pub struct ArgV {
    pub identifier: Seq<char>,
    pub kind: KindV,
    pub line: Line,
}

/// The value of a `Kind`.
pub struct KindV {
    pub body: TypeBodyV,
    pub line: Line,
    pub file: Option<Seq<char>>,
}

/// The value of a `TypeBody`.
pub enum TypeBodyV {
    Function { args: Seq<ArgV>, return_type: Box<Option<KindV>>, refs: nat },
    Type { refs: nat, main: Seq<Seq<char>>, generics: Seq<KindV>, nullable: bool, kind: KindType },
    Generic { identifier: Seq<char>, constraints: Seq<InnerPathV> },
    Array { type_: Box<KindV>, size: nat, refs: nat, nullable: bool },
    Void,
}

/// The contents of optional text.
pub open spec fn opt_str(o: Option<String>) -> Option<Seq<char>> {
    match o {
        Some(s) => Some(s@),
        None => None,
    }
}

/// The contents of a list of strings.
pub open spec fn strs(v: Seq<String>) -> Seq<Seq<char>> {
    v.map_values(|s: String| s@)
}

impl View for InnerPath {
    type V = InnerPathV;

    open spec fn view(&self) -> InnerPathV {
        InnerPathV {
            file: self.file@,
            block: opt_str(self.block),
            ident: self.ident@,
            kind: self.kind,
        }
    }
}

/// The value of a resolved type.
pub open spec fn kind_view(k: Kind) -> KindV
    decreases k,
{
    KindV { body: body_view(k.body), line: k.line, file: opt_str(k.file) }
}

/// The value of the shape of a resolved type.
pub open spec fn body_view(b: TypeBody) -> TypeBodyV
    decreases b,
{
    match b {
        TypeBody::Function { args, return_type, refs } => TypeBodyV::Function {
            args: args_view(args@),
            return_type: Box::new(
                match *return_type {
                    Some(k) => Some(kind_view(k)),
                    None => None,
                },
            ),
            refs: refs as nat,
        },
        TypeBody::Type { refs, main, generics, nullable, kind } => TypeBodyV::Type {
            refs: refs as nat,
            main: strs(main@),
            generics: kinds_view(generics@),
            nullable,
            kind,
        },
        TypeBody::Generic { identifier, constraints } => TypeBodyV::Generic {
            identifier: identifier@,
            constraints: paths_view(constraints@),
        },
        TypeBody::Array { type_, size, refs, nullable } => TypeBodyV::Array {
            type_: Box::new(kind_view(*type_)),
            size: size as nat,
            refs: refs as nat,
            nullable,
        },
        TypeBody::Void => TypeBodyV::Void,
    }
}

/// The values of a list of paths.
pub open spec fn paths_view(v: Seq<InnerPath>) -> Seq<InnerPathV> {
    v.map_values(|p: InnerPath| p@)
}

/// The value of a type that stands where none is.
pub open spec fn void_kind() -> KindV {
    KindV { body: TypeBodyV::Void, line: Line { line: 0, column: 0 }, file: None }
}

/// The values of a list of arguments.
pub open spec fn args_view(v: Seq<Arg>) -> Seq<ArgV>
    decreases v,
{
    Seq::new(
        v.len(),
        |i: int|
            if 0 <= i < v.len() {
                arg_view(v[i])
            } else {
                ArgV { identifier: seq![], kind: void_kind(), line: Line { line: 0, column: 0 } }
            },
    )
}

/// The values of a list of types.
pub open spec fn kinds_view(v: Seq<Kind>) -> Seq<KindV>
    decreases v,
{
    Seq::new(v.len(), |i: int| if 0 <= i < v.len() { kind_view(v[i]) } else { void_kind() })
}

/// The value of an argument.
pub open spec fn arg_view(a: Arg) -> ArgV
    decreases a,
{
    ArgV { identifier: a.identifier@, kind: kind_view(a.kind), line: a.line }
}

impl View for Kind {
    type V = KindV;

    open spec fn view(&self) -> KindV {
        kind_view(*self)
    }
}

impl View for TypeBody {
    type V = TypeBodyV;

    open spec fn view(&self) -> TypeBodyV {
        body_view(*self)
    }
}

impl View for Arg {
    type V = ArgV;

    open spec fn view(&self) -> ArgV {
        arg_view(*self)
    }
}


/// A copy of optional text.
pub fn copy_opt_str(o: &Option<String>) -> (r: Option<String>)
    ensures
        opt_str(r) == opt_str(*o),
{
    match o {
        Some(s) => Some(s.clone()),
        None => None,
    }
}

/// A copy of a list of strings.
pub fn copy_strs(v: &Vec<String>) -> (r: Vec<String>)
    ensures
        strs(r@) == strs(v@),
{
    let mut r: Vec<String> = Vec::new();
    let mut i: usize = 0;
    while i < v.len()
        invariant
            i <= v@.len(),
            r@.len() == i,
            forall|j: int| 0 <= j < i ==> r@[j]@ == v@[j]@,
        decreases v@.len() - i,
    {
        r.push(v[i].clone());
        i = i + 1;
    }
    assert(strs(r@) =~= strs(v@));
    r
}

/// Whether two optional texts are equal.
pub fn opt_str_eq(a: &Option<String>, b: &Option<String>) -> (r: bool)
    ensures
        r == (opt_str(*a) == opt_str(*b)),
{
    match a {
        Some(x) => match b {
            Some(y) => *x == *y,
            None => false,
        },
        None => b.is_none(),
    }
}

/// Whether two lists of strings are equal.
pub fn strs_eq(a: &Vec<String>, b: &Vec<String>) -> (r: bool)
    ensures
        r == (strs(a@) == strs(b@)),
{
    if a.len() != b.len() {
        assert(strs(a@).len() != strs(b@).len());
        return false;
    }
    let mut i: usize = 0;
    while i < a.len()
        invariant
            i <= a@.len() == b@.len(),
            forall|j: int| 0 <= j < i ==> a@[j]@ == b@[j]@,
        decreases a@.len() - i,
    {
        if !(a[i] == b[i]) {
            assert(strs(a@)[i as int] != strs(b@)[i as int]);
            return false;
        }
        i = i + 1;
    }
    assert(strs(a@) =~= strs(b@));
    true
}

impl InnerPath {
    /// A copy of the path.
    pub fn copy(&self) -> (r: InnerPath)
        ensures
            r@ == self@,
    {
        InnerPath {
            file: self.file.clone(),
            block: copy_opt_str(&self.block),
            ident: self.ident.clone(),
            kind: self.kind,
        }
    }

    /// Whether two paths are equal.
    pub fn same(&self, other: &InnerPath) -> (r: bool)
        ensures
            r == (self@ == other@),
    {
        self.file == other.file && opt_str_eq(&self.block, &other.block) && self.ident
            == other.ident && self.kind == other.kind
    }
}

/// A copy of a list of paths.
fn copy_paths(v: &Vec<InnerPath>) -> (r: Vec<InnerPath>)
    ensures
        paths_view(r@) == paths_view(v@),
{
    let mut r: Vec<InnerPath> = Vec::new();
    let mut i: usize = 0;
    while i < v.len()
        invariant
            i <= v@.len(),
            r@.len() == i,
            forall|j: int| 0 <= j < i ==> r@[j]@ == v@[j]@,
        decreases v@.len() - i,
    {
        r.push(v[i].copy());
        i = i + 1;
    }
    assert(paths_view(r@) =~= paths_view(v@));
    r
}

/// Whether two lists of paths are equal.
fn paths_eq(a: &Vec<InnerPath>, b: &Vec<InnerPath>) -> (r: bool)
    ensures
        r == (paths_view(a@) == paths_view(b@)),
{
    let ghost va = paths_view(a@);
    let ghost vb = paths_view(b@);
    if a.len() != b.len() {
        assert(va.len() != vb.len());
        return false;
    }
    let mut i: usize = 0;
    while i < a.len()
        invariant
            i <= a@.len() == b@.len(),
            va == paths_view(a@),
            vb == paths_view(b@),
            forall|j: int| 0 <= j < i ==> a@[j]@ == b@[j]@,
        decreases a@.len() - i,
    {
        if !a[i].same(&b[i]) {
            assert(va[i as int] != vb[i as int]);
            return false;
        }
        i = i + 1;
    }
    assert(va =~= vb);
    true
}

/// A copy of a list of arguments.
pub fn copy_args(v: &Vec<Arg>) -> (r: Vec<Arg>)
    ensures
        args_view(r@) == args_view(v@),
    decreases v,
{
    let mut r: Vec<Arg> = Vec::new();
    let mut i: usize = 0;
    while i < v.len()
        invariant
            i <= v@.len(),
            r@.len() == i,
            forall|j: int| 0 <= j < i ==> arg_view(r@[j]) == arg_view(v@[j]),
        decreases v@.len() - i,
    {
        proof {
            vstd::std_specs::vec::axiom_vec_index_decreases(*v, i as int);
        }
        let a = v[i].copy();
        r.push(a);
        i = i + 1;
    }
    assert(args_view(r@) =~= args_view(v@));
    r
}

/// A copy of a list of types.
pub fn copy_kinds(v: &Vec<Kind>) -> (r: Vec<Kind>)
    ensures
        kinds_view(r@) == kinds_view(v@),
    decreases v,
{
    let mut r: Vec<Kind> = Vec::new();
    let mut i: usize = 0;
    while i < v.len()
        invariant
            i <= v@.len(),
            r@.len() == i,
            forall|j: int| 0 <= j < i ==> kind_view(r@[j]) == kind_view(v@[j]),
        decreases v@.len() - i,
    {
        proof {
            vstd::std_specs::vec::axiom_vec_index_decreases(*v, i as int);
        }
        let k = v[i].copy();
        r.push(k);
        i = i + 1;
    }
    assert(kinds_view(r@) =~= kinds_view(v@));
    r
}

impl Arg {
    /// A copy of the argument.
    pub fn copy(&self) -> (r: Arg)
        ensures
            r@ == self@,
        decreases self,
    {
        Arg { identifier: self.identifier.clone(), kind: self.kind.copy(), line: self.line }
    }
}

impl Kind {
    /// A copy of the type.
    pub fn copy(&self) -> (r: Kind)
        ensures
            r@ == self@,
        decreases self,
    {
        Kind { body: self.body.copy(), line: self.line, file: copy_opt_str(&self.file) }
    }
}

impl TypeBody {
    /// A copy of the shape.
    pub fn copy(&self) -> (r: TypeBody)
        ensures
            r@ == self@,
        decreases self,
    {
        match self {
            TypeBody::Function { args, return_type, refs } => {
                let a = copy_args(args);
                let rt = match &**return_type {
                    Some(k) => Some(k.copy()),
                    None => None,
                };
                let r = TypeBody::Function { args: a, return_type: Box::new(rt), refs: *refs };
                assert(r@ =~= self@);
                r
            },
            TypeBody::Type { refs, main, generics, nullable, kind } => {
                let r = TypeBody::Type {
                    refs: *refs,
                    main: copy_strs(main),
                    generics: copy_kinds(generics),
                    nullable: *nullable,
                    kind: *kind,
                };
                assert(r@ =~= self@);
                r
            },
            TypeBody::Generic { identifier, constraints } => {
                let r = TypeBody::Generic {
                    identifier: identifier.clone(),
                    constraints: copy_paths(constraints),
                };
                r
            },
            TypeBody::Array { type_, size, refs, nullable } => TypeBody::Array {
                type_: Box::new((**type_).copy()),
                size: *size,
                refs: *refs,
                nullable: *nullable,
            },
            TypeBody::Void => TypeBody::Void,
        }
    }
}


/// Whether two lists of arguments are equal.
pub fn args_eq(a: &Vec<Arg>, b: &Vec<Arg>) -> (r: bool)
    ensures
        r == (args_view(a@) == args_view(b@)),
    decreases a,
{
    if a.len() != b.len() {
        assert(args_view(a@).len() != args_view(b@).len());
        return false;
    }
    let mut i: usize = 0;
    while i < a.len()
        invariant
            i <= a@.len() == b@.len(),
            forall|j: int| 0 <= j < i ==> arg_view(a@[j]) == arg_view(b@[j]),
        decreases a@.len() - i,
    {
        proof {
            vstd::std_specs::vec::axiom_vec_index_decreases(*a, i as int);
        }
        let same = a[i].identifier == b[i].identifier && a[i].kind.same(&b[i].kind) && a[i].line
            == b[i].line;
        if !same {
            assert(args_view(a@)[i as int] != args_view(b@)[i as int]);
            return false;
        }
        i = i + 1;
    }
    assert(args_view(a@) =~= args_view(b@));
    true
}

/// Whether two lists of types are equal.
pub fn kinds_eq(a: &Vec<Kind>, b: &Vec<Kind>) -> (r: bool)
    ensures
        r == (kinds_view(a@) == kinds_view(b@)),
    decreases a,
{
    if a.len() != b.len() {
        assert(kinds_view(a@).len() != kinds_view(b@).len());
        return false;
    }
    let mut i: usize = 0;
    while i < a.len()
        invariant
            i <= a@.len() == b@.len(),
            forall|j: int| 0 <= j < i ==> kind_view(a@[j]) == kind_view(b@[j]),
        decreases a@.len() - i,
    {
        proof {
            vstd::std_specs::vec::axiom_vec_index_decreases(*a, i as int);
        }
        if !a[i].same(&b[i]) {
            assert(kinds_view(a@)[i as int] != kinds_view(b@)[i as int]);
            return false;
        }
        i = i + 1;
    }
    assert(kinds_view(a@) =~= kinds_view(b@));
    true
}

impl Kind {
    /// Whether two types are equal in every part.
    pub fn same(&self, other: &Kind) -> (r: bool)
        ensures
            r == (self@ == other@),
        decreases self,
    {
        self.body.same(&other.body) && self.line == other.line && opt_str_eq(&self.file, &other.file)
    }
}

impl TypeBody {
    /// Whether two shapes are equal in every part.
    pub fn same(&self, other: &TypeBody) -> (r: bool)
        ensures
            r == (self@ == other@),
        decreases self,
    {
        match self {
            TypeBody::Function { args, return_type, refs } => match other {
                TypeBody::Function { args: args2, return_type: return_type2, refs: refs2 } => {
                    let rt_same = match &**return_type {
                        Some(k) => match &**return_type2 {
                            Some(k2) => k.same(k2),
                            None => false,
                        },
                        None => return_type2.is_none(),
                    };
                    args_eq(args, args2) && rt_same && *refs == *refs2
                },
                _ => false,
            },
            TypeBody::Type { refs, main, generics, nullable, kind } => match other {
                TypeBody::Type {
                    refs: refs2,
                    main: main2,
                    generics: generics2,
                    nullable: nullable2,
                    kind: kind2,
                } => {
                    *refs == *refs2 && strs_eq(main, main2) && kinds_eq(generics, generics2)
                        && *nullable == *nullable2 && *kind == *kind2
                },
                _ => false,
            },
            TypeBody::Generic { identifier, constraints } => match other {
                TypeBody::Generic { identifier: identifier2, constraints: constraints2 } => {
                    *identifier == *identifier2 && paths_eq(constraints, constraints2)
                },
                _ => false,
            },
            TypeBody::Array { type_, size, refs, nullable } => match other {
                TypeBody::Array { type_: type_2, size: size2, refs: refs2, nullable: nullable2 } => {
                    (**type_).same(&**type_2) && *size == *size2 && *refs == *refs2 && *nullable
                        == *nullable2
                },
                _ => false,
            },
            TypeBody::Void => match other {
                TypeBody::Void => true,
                _ => false,
            },
        }
    }
}


impl KindType {
    /// How an object of this kind is imported, if it is imported at all.
    pub fn to_import_kind(&self) -> (r: Option<ImportKinds>)
        ensures
            r == match *self {
                KindType::Struct | KindType::Enum | KindType::Trait | KindType::Fun => Some(
                    ImportKinds::Rd,
                ),
                KindType::UserData | KindType::BinFun => Some(ImportKinds::Dll),
                _ => None,
            },
    {
        match self {
            KindType::Struct => Some(ImportKinds::Rd),
            KindType::Enum => Some(ImportKinds::Rd),
            KindType::Trait => Some(ImportKinds::Rd),
            KindType::Fun => Some(ImportKinds::Rd),
            KindType::Primitive => None,
            KindType::UserData => Some(ImportKinds::Dll),
            KindType::Error => None,
            KindType::BinFun => Some(ImportKinds::Dll),
            KindType::SelfRef => None,
            KindType::NoKind => None,
        }
    }
}

impl TypeComparison {
    /// Whether the types are equal.
    pub fn is_equal(&self) -> (r: bool)
        ensures
            r == (*self is Equal),
    {
        match self {
            TypeComparison::Equal => true,
            _ => false,
        }
    }

    /// Whether the types differ: not equal, in array length, in references, or in nullability.
    pub fn is_not_equal(&self) -> (r: bool)
        ensures
            r == (*self is NotEqual || *self is ArrayDiff || *self is ReferenceDiff
                || *self is NotNullable),
    {
        match self {
            TypeComparison::NotEqual => true,
            TypeComparison::ArrayDiff(_, _) => true,
            TypeComparison::ReferenceDiff(_) => true,
            TypeComparison::NotNullable => true,
            _ => false,
        }
    }

    /// Whether a value of one type can stand for the other: they are equal or compatible.
    pub fn is_compatible(&self) -> (r: bool)
        ensures
            r == (*self is Compatible || *self is Equal),
    {
        match self {
            TypeComparison::Compatible => true,
            TypeComparison::Equal => true,
            _ => false,
        }
    }

    /// Whether the types differ in references only.
    pub fn is_reference_diff(&self) -> (r: bool)
        ensures
            r == (*self is ReferenceDiff),
    {
        match self {
            TypeComparison::ReferenceDiff(_) => true,
            _ => false,
        }
    }

    /// Whether the types are arrays of different lengths.
    pub fn is_array_diff(&self) -> (r: bool)
        ensures
            r == (*self is ArrayDiff),
    {
        match self {
            TypeComparison::ArrayDiff(_, _) => true,
            _ => false,
        }
    }
}

impl Kind {
    /// A type from its parts.
    pub fn new(body: TypeBody, line: Line, file: Option<String>) -> (r: Kind)
        ensures
            r.body == body,
            r.line == line,
            r.file == file,
    {
        Kind { body, line, file }
    }

    /// The type of a struct of `file`.
    pub fn from_struct(ident: String, file: String, line: Line) -> (r: Kind)
        ensures
            r@ == (KindV {
                body: TypeBodyV::Type {
                    refs: 0,
                    main: seq![ident@],
                    generics: seq![],
                    nullable: false,
                    kind: KindType::Struct,
                },
                line,
                file: Some(file@),
            }),
    {
        let ghost iv = ident@;
        let mut main: Vec<String> = Vec::new();
        main.push(ident);
        let generics: Vec<Kind> = Vec::new();
        assert(kinds_view(generics@) =~= Seq::<KindV>::empty());
        assert(strs(main@) =~= seq![main@[0]@]);
        let r = Kind {
            body: TypeBody::Type {
                refs: 0,
                main,
                generics,
                nullable: false,
                kind: KindType::Struct,
            },
            line,
            file: Some(file),
        };
        assert(r@ =~= (KindV {
            body: TypeBodyV::Type {
                refs: 0,
                main: seq![iv],
                generics: seq![],
                nullable: false,
                kind: KindType::Struct,
            },
            line,
            file: Some(file@),
        }));
        r
    }

    /// The type of a user data type of the binary `file`.
    pub fn from_userdata(ident: String, file: String, line: Line) -> (r: Kind)
        ensures
            r@ == (KindV {
                body: TypeBodyV::Type {
                    refs: 0,
                    main: seq![ident@],
                    generics: seq![],
                    nullable: false,
                    kind: KindType::UserData,
                },
                line,
                file: Some(file@),
            }),
    {
        let ghost iv = ident@;
        let mut main: Vec<String> = Vec::new();
        main.push(ident);
        let generics: Vec<Kind> = Vec::new();
        assert(kinds_view(generics@) =~= Seq::<KindV>::empty());
        assert(strs(main@) =~= seq![main@[0]@]);
        let r = Kind {
            body: TypeBody::Type {
                refs: 0,
                main,
                generics,
                nullable: false,
                kind: KindType::UserData,
            },
            line,
            file: Some(file),
        };
        assert(r@ =~= (KindV {
            body: TypeBodyV::Type {
                refs: 0,
                main: seq![iv],
                generics: seq![],
                nullable: false,
                kind: KindType::UserData,
            },
            line,
            file: Some(file@),
        }));
        r
    }

    /// The type of an enum of `file`.
    pub fn from_enum(enum_: &Enum, file: String) -> (r: Kind)
        ensures
            r@ == (KindV {
                body: TypeBodyV::Type {
                    refs: 0,
                    main: seq![enum_.identifier@],
                    generics: seq![],
                    nullable: false,
                    kind: KindType::Enum,
                },
                line: enum_.line,
                file: Some(file@),
            }),
    {
        let mut main: Vec<String> = Vec::new();
        main.push(enum_.identifier.clone());
        let generics: Vec<Kind> = Vec::new();
        assert(kinds_view(generics@) =~= Seq::<KindV>::empty());
        assert(strs(main@) =~= seq![main@[0]@]);
        let r = Kind {
            body: TypeBody::Type {
                refs: 0,
                main,
                generics,
                nullable: false,
                kind: KindType::Enum,
            },
            line: enum_.line,
            file: Some(file),
        };
        assert(r@.body =~= TypeBodyV::Type {
            refs: 0,
            main: seq![enum_.identifier@],
            generics: seq![],
            nullable: false,
            kind: KindType::Enum,
        });
        r
    }

    /// The type of a trait of `file`.
    pub fn from_trait(trait_: &Trait, file: String) -> (r: Kind)
        ensures
            r@ == (KindV {
                body: TypeBodyV::Type {
                    refs: 0,
                    main: seq![trait_.identifier@],
                    generics: seq![],
                    nullable: false,
                    kind: KindType::Trait,
                },
                line: trait_.line,
                file: Some(file@),
            }),
    {
        let mut main: Vec<String> = Vec::new();
        main.push(trait_.identifier.clone());
        let generics: Vec<Kind> = Vec::new();
        assert(kinds_view(generics@) =~= Seq::<KindV>::empty());
        assert(strs(main@) =~= seq![main@[0]@]);
        let r = Kind {
            body: TypeBody::Type {
                refs: 0,
                main,
                generics,
                nullable: false,
                kind: KindType::Trait,
            },
            line: trait_.line,
            file: Some(file),
        };
        assert(r@.body =~= TypeBodyV::Type {
            refs: 0,
            main: seq![trait_.identifier@],
            generics: seq![],
            nullable: false,
            kind: KindType::Trait,
        });
        r
    }

    /// The type of a function of `file`: its arguments and return type.
    pub fn from_fun(fun: &Function, file: String) -> (r: Kind)
        requires
            fun.identifier is Some,
        ensures
            r@ == (KindV {
                body: TypeBodyV::Function {
                    args: args_view(fun.args@),
                    return_type: Box::new(
                        match fun.return_type {
                            Some(k) => Some(k@),
                            None => None,
                        },
                    ),
                    refs: 0,
                },
                line: fun.line,
                file: Some(file@),
            }),
    {
        let rt = match &fun.return_type {
            Some(k) => Some(k.copy()),
            None => None,
        };
        Kind {
            body: TypeBody::Function { args: copy_args(&fun.args), return_type: Box::new(rt), refs: 0 },
            line: fun.line,
            file: Some(file),
        }
    }

    /// A generic type parameter.
    pub fn from_generic(ident: String, constraints: Vec<InnerPath>, line: Line, file: Option<String>) -> (r: Kind)
        ensures
            r.body == (TypeBody::Generic { identifier: ident, constraints }),
            r.line == line,
            r.file == file,
    {
        Kind { body: TypeBody::Generic { identifier: ident, constraints }, line, file }
    }

    /// An array type of `size` elements of `type_`.
    pub fn from_array(type_: Kind, size: usize, refs: usize, nullable: bool, line: Line, file: Option<String>) -> (r: Kind)
        ensures
            r.body == (TypeBody::Array { type_: Box::new(type_), size, refs, nullable }),
            r.line == line,
            r.file == file,
    {
        Kind { body: TypeBody::Array { type_: Box::new(type_), size, refs, nullable }, line, file }
    }

    /// The resolved form of a type as written.
    pub fn from_type(type_: ShallowType, line: Line, file: Option<String>) -> (r: Kind)
        ensures
            r.body == (TypeBody::Type {
                refs: type_.refs,
                main: type_.main,
                generics: type_.generics,
                nullable: type_.nullable,
                kind: type_.kind,
            }),
            r.line == line,
            r.file == file,
    {
        Kind {
            body: TypeBody::Type {
                refs: type_.refs,
                main: type_.main,
                generics: type_.generics,
                nullable: type_.nullable,
                kind: type_.kind,
            },
            line,
            file,
        }
    }

    /// The type of nothing.
    pub fn void() -> (r: Kind)
        ensures
            r.body is Void,
            r.line == (Line { line: 0, column: 0 }),
            r.file is None,
    {
        Kind { body: TypeBody::Void, line: Line::from_pos((0, 0)), file: None }
    }

    /// Whether this is a function type.
    pub fn is_fun(&self) -> (r: bool)
        ensures
            r == (self.body is Function),
    {
        match &self.body {
            TypeBody::Function { .. } => true,
            _ => false,
        }
    }

    /// Whether this is a named type.
    pub fn is_type(&self) -> (r: bool)
        ensures
            r == (self.body is Type),
    {
        match &self.body {
            TypeBody::Type { .. } => true,
            _ => false,
        }
    }

    /// Whether this is a generic parameter.
    pub fn is_generic(&self) -> (r: bool)
        ensures
            r == (self.body is Generic),
    {
        match &self.body {
            TypeBody::Generic { .. } => true,
            _ => false,
        }
    }

    /// Whether this is an array type.
    pub fn is_array(&self) -> (r: bool)
        ensures
            r == (self.body is Array),
    {
        match &self.body {
            TypeBody::Array { .. } => true,
            _ => false,
        }
    }

    /// Whether this is the type of nothing.
    pub fn is_void(&self) -> (r: bool)
        ensures
            r == (self.body is Void),
    {
        match &self.body {
            TypeBody::Void => true,
            _ => false,
        }
    }

    /// The kind of object that a named type names.
    pub fn get_type_kind(&self) -> (r: Option<KindType>)
        ensures
            r == match self.body {
                TypeBody::Type { kind, .. } => Some(kind),
                _ => None,
            },
    {
        match &self.body {
            TypeBody::Type { kind, .. } => Some(*kind),
            _ => None,
        }
    }
}


/// Whether a resolved type is the null type: a named type whose last name
/// is `null`, without references.
pub open spec fn kind_is_null(k: KindV) -> bool {
    k.body matches TypeBodyV::Type { main, refs, .. } && main.last() == null_name() && refs == 0
}

/// Whether `Kind::cmp` can compare `a` with `b`: neither reaches a function
/// or generic type of the same shape, a named type has a name, and a
/// difference in references fits an `i32`.
pub open spec fn comparable(a: KindV, b: KindV) -> bool
    decreases a,
{
    match a.body {
        TypeBodyV::Type { main, refs, nullable, .. } => {
            &&& main.len() > 0
            &&& b.body matches TypeBodyV::Type { main: main2, refs: refs2, nullable: nullable2, .. } ==> {
                &&& main2.len() > 0
                &&& (!(kind_is_null(a) && kind_is_null(b)) && !(nullable && kind_is_null(b)) && !(!nullable
                    && nullable2) && refs != refs2) ==> i32::MIN <= ref_diff_spec(refs as usize, refs2 as usize)
                    <= i32::MAX
            }
        },
        TypeBodyV::Array { type_, refs, nullable, .. } => b.body matches TypeBodyV::Array {
            type_: type_2,
            refs: refs2,
            nullable: nullable2,
            ..
        } ==> (!(!nullable && nullable2) ==> (refs != refs2 ==> i32::MIN <= ref_diff_spec(
            refs as usize,
            refs2 as usize,
        ) <= i32::MAX) && (refs == refs2 ==> comparable(*type_, *type_2))),
        TypeBodyV::Void => true,
        TypeBodyV::Function { .. } => !(b.body is Function),
        TypeBodyV::Generic { .. } => !(b.body is Generic),
    }
}

/// How `Kind::cmp` compares `a` with `b`: types of different shapes are not
/// equal; of two named types, null against null or against a nullable type
/// is equal, a nullable one against a type that is not is `NotNullable`,
/// different references give their difference, and otherwise the last names
/// decide; arrays compare in the same way, then by their element types.
pub open spec fn kind_compare(a: KindV, b: KindV) -> TypeComparison
    decreases a,
{
    match a.body {
        TypeBodyV::Type { main, refs, nullable, .. } => match b.body {
            TypeBodyV::Type { main: main2, refs: refs2, nullable: nullable2, .. } => if kind_is_null(a)
                && kind_is_null(b) {
                TypeComparison::Equal
            } else if nullable && kind_is_null(b) {
                TypeComparison::Equal
            } else if !nullable && nullable2 {
                TypeComparison::NotNullable
            } else if refs != refs2 {
                TypeComparison::ReferenceDiff(ref_diff_value(refs as usize, refs2 as usize))
            } else if main.last() != main2.last() {
                TypeComparison::NotEqual
            } else {
                TypeComparison::Equal
            },
            _ => TypeComparison::NotEqual,
        },
        TypeBodyV::Array { type_, refs, nullable, .. } => match b.body {
            TypeBodyV::Array { type_: type_2, refs: refs2, nullable: nullable2, .. } => if !nullable
                && nullable2 {
                TypeComparison::NotNullable
            } else if refs != refs2 {
                TypeComparison::ReferenceDiff(ref_diff_value(refs as usize, refs2 as usize))
            } else {
                kind_compare(*type_, *type_2)
            },
            _ => TypeComparison::NotEqual,
        },
        TypeBodyV::Void => if b.body is Void {
            TypeComparison::Equal
        } else {
            TypeComparison::NotEqual
        },
        _ => TypeComparison::NotEqual,
    }
}

/// The difference of two reference counts, each taken as an `i32` (wrapping).
pub open spec fn ref_diff_spec(a: usize, b: usize) -> int {
    (a as i32) - (b as i32)
}

/// The difference of two reference counts as an `i32`.
pub open spec fn ref_diff_value(a: usize, b: usize) -> i32 {
    ref_diff_spec(a, b) as i32
}

/// `a as i32 - b as i32`.
pub fn ref_diff(a: usize, b: usize) -> (r: i32)
    requires
        i32::MIN <= ref_diff_spec(a, b) <= i32::MAX,
    ensures
        r == ref_diff_spec(a, b),
        r == ref_diff_value(a, b),
{
    (a as i32) - (b as i32)
}

/// The name `null`.
pub open spec fn null_name() -> Seq<char> {
    seq!['n', 'u', 'l', 'l']
}

impl Kind {
    /// Whether this is the null type: a named type whose last name is `null`, without references.
    pub fn is_null(&self) -> (r: bool)
        requires
            self@.body matches TypeBodyV::Type { main, .. } ==> main.len() > 0,
        ensures
            r == (self@.body matches TypeBodyV::Type { main, refs, .. } && main.last()
                == null_name() && refs == 0),
    {
        match &self.body {
            TypeBody::Type { main, refs, .. } => {
                proof {
                    reveal_strlit("null");
                    assert("null"@ =~= null_name());
                }
                let last = main[main.len() - 1].as_str();
                text_eq(last, "null") && *refs == 0
            },
            _ => false,
        }
    }

    /// Compares two resolved types as `kind_compare` says: types of
    /// different shapes are not equal, types that differ only in references
    /// give the difference, and a type is equal to itself.
    pub fn cmp(&self, other: &Self) -> (r: TypeComparison)
        requires
            comparable(self@, other@),
        ensures
            r == kind_compare(self@, other@),
            self@.body == other@.body ==> r is Equal,
        decreases self,
    {
        match &self.body {
            TypeBody::Type { refs, main, nullable, .. } => {
                if let TypeBody::Type { refs: refs2, main: main2, nullable: nullable2, .. } = &other.body {
                    if self.is_null() && other.is_null() {
                        return TypeComparison::Equal;
                    }
                    if *nullable && other.is_null() {
                        return TypeComparison::Equal;
                    }
                    if !*nullable && *nullable2 {
                        return TypeComparison::NotNullable;
                    }
                    if *refs != *refs2 {
                        return TypeComparison::ReferenceDiff(ref_diff(*refs, *refs2));
                    }
                    if !(main[main.len() - 1] == main2[main2.len() - 1]) {
                        return TypeComparison::NotEqual;
                    }
                    TypeComparison::Equal
                } else {
                    TypeComparison::NotEqual
                }
            },
            TypeBody::Array { type_, nullable, refs, .. } => {
                if let TypeBody::Array { type_: type_2, nullable: nullable_2, refs: refs_2, .. } = &other.body {
                    if self.is_null() && other.is_null() {
                        return TypeComparison::Equal;
                    }
                    if *nullable && other.is_null() {
                        return TypeComparison::Equal;
                    }
                    if !*nullable && *nullable_2 {
                        return TypeComparison::NotNullable;
                    }
                    if *refs != *refs_2 {
                        return TypeComparison::ReferenceDiff(ref_diff(*refs, *refs_2));
                    }
                    (**type_).cmp(&**type_2)
                } else {
                    TypeComparison::NotEqual
                }
            },
            TypeBody::Void => match &other.body {
                TypeBody::Void => TypeComparison::Equal,
                _ => TypeComparison::NotEqual,
            },
            _ => TypeComparison::NotEqual,
        }
    }
}


/// `s` without its leading `&` characters.
pub open spec fn trim_amp(s: Seq<char>) -> Seq<char>
    decreases s.len(),
{
    if s.len() > 0 && s[0] == '&' {
        trim_amp(s.drop_first())
    } else {
        s
    }
}

/// `s` without its trailing `?` characters.
pub open spec fn trim_q(s: Seq<char>) -> Seq<char>
    decreases s.len(),
{
    if s.len() > 0 && s.last() == '?' {
        trim_q(s.drop_last())
    } else {
        s
    }
}

proof fn lemma_trim_amp_skip(s: Seq<char>, a: int)
    requires
        0 <= a <= s.len(),
        forall|i: int| 0 <= i < a ==> s[i] == '&',
    ensures
        trim_amp(s) == trim_amp(s.skip(a)),
    decreases a,
{
    if a > 0 {
        lemma_trim_amp_skip(s.drop_first(), a - 1);
        assert(s.drop_first().skip(a - 1) =~= s.skip(a));
    } else {
        assert(s.skip(0) =~= s);
    }
}

proof fn lemma_trim_q_take(s: Seq<char>, b: int)
    requires
        0 <= b <= s.len(),
        forall|i: int| b <= i < s.len() ==> s[i] == '?',
    ensures
        trim_q(s) == trim_q(s.take(b)),
    decreases s.len() - b,
{
    if b < s.len() {
        lemma_trim_q_take(s.drop_last(), b);
        assert(s.drop_last().take(b) =~= s.take(b));
    } else {
        assert(s.take(b) =~= s);
    }
}

/// Whether `s`, without leading `&` and trailing `?`, is `name`.
pub fn trimmed_eq(s: &str, name: &str) -> (r: bool)
    ensures
        r == (trim_q(trim_amp(s@)) == name@),
{
    let n = s.unicode_len();
    let mut a: usize = 0;
    while a < n && s.get_char(a) == '&'
        invariant
            a <= n == s@.len(),
            forall|i: int| 0 <= i < a ==> s@[i] == '&',
        decreases n - a,
    {
        a = a + 1;
    }
    proof {
        lemma_trim_amp_skip(s@, a as int);
    }
    assert(trim_amp(s@.skip(a as int)) == s@.skip(a as int));
    let ghost t = s@.skip(a as int);
    let mut b: usize = n;
    while b > a && s.get_char(b - 1) == '?'
        invariant
            a <= b <= n == s@.len(),
            t == s@.skip(a as int),
            forall|i: int| b <= i < n ==> s@[i] == '?',
        decreases b - a,
    {
        b = b - 1;
    }
    proof {
        lemma_trim_q_take(t, (b - a) as int);
        assert(t.take((b - a) as int) =~= s@.subrange(a as int, b as int));
        if b > a {
            assert(t.take((b - a) as int).last() == s@[b - 1]);
        }
        assert(trim_q(t.take((b - a) as int)) == t.take((b - a) as int));
        assert(trim_q(trim_amp(s@)) == s@.subrange(a as int, b as int));
    }
    let m = name.unicode_len();
    if m != b - a {
        assert(s@.subrange(a as int, b as int).len() != name@.len());
        assert(trim_q(trim_amp(s@)) != name@);
        return false;
    }
    let mut i: usize = 0;
    while i < m
        invariant
            m == name@.len() == b - a,
            a <= b <= n == s@.len(),
            trim_q(trim_amp(s@)) == s@.subrange(a as int, b as int),
            i <= m,
            forall|j: int| 0 <= j < i ==> s@[a + j] == name@[j],
        decreases m - i,
    {
        if s.get_char(a + i) != name.get_char(i) {
            assert(s@.subrange(a as int, b as int)[i as int] != name@[i as int]);
            return false;
        }
        i = i + 1;
    }
    assert(s@.subrange(a as int, b as int) =~= name@);
    true
}

/// The names of the primitive types.
pub open spec fn is_prim_name(n: Seq<char>) -> bool {
    ||| n == seq!['i', 'n', 't']
    ||| n == seq!['f', 'l', 'o', 'a', 't']
    ||| n == seq!['c', 'h', 'a', 'r']
    ||| n == seq!['u', 'i', 'n', 't']
    ||| n == seq!['b', 'o', 'o', 'l']
    ||| n == null_name()
    ||| n == seq!['s', 't', 'r', 'i', 'n', 'g']
}

/// Whether printing the type with `{:?}` succeeds: a function type has a name.
pub open spec fn debug_ok(t: &ShallowType) -> bool {
    t.is_fun matches Some(f) ==> f.identifier is Some
}

/// Whether `{:?}` prints the type as exactly `name`, for a name without the
/// characters `&`, `[`, `]`, `.`, `<`, `(`, `?`: a plain type of that one name,
/// without references, array, generics or `?`.
pub open spec fn debug_is(t: &ShallowType, name: Seq<char>) -> bool {
    &&& t.is_fun is None
    &&& t.refs == 0
    &&& t.array_depth == 0
    &&& t.generics@.len() == 0
    &&& !t.nullable
    &&& t.main@.len() == 1
    &&& t.main@[0]@ == name
}

/// Whether `{:?}` prints the type as `name` once leading `&` and trailing `?`
/// are cut, for a name like those of `debug_is`.
pub open spec fn trimmed_is(t: &ShallowType, name: Seq<char>) -> bool {
    &&& t.is_fun is None
    &&& t.array_depth == 0
    &&& t.generics@.len() == 0
    &&& t.main@.len() == 1
    &&& trim_q(trim_amp(t.main@[0]@)) == name
}

/// Whether the type is primitive, as `ShallowType::is_primitive` decides.
pub open spec fn is_primitive_spec(t: &ShallowType) -> bool {
    t.kind == KindType::Primitive || (exists|n: Seq<char>| is_prim_name(n) && trimmed_is(t, n))
}

/// Whether the type prints as one of the primitive names.
pub open spec fn prints_primitive(t: &ShallowType) -> bool {
    exists|n: Seq<char>| is_prim_name(n) && debug_is(t, n)
}

/// The last name of a path, if any.
pub open spec fn last_name(v: Seq<String>) -> Option<Seq<char>> {
    if v.len() == 0 {
        None
    } else {
        Some(v.last()@)
    }
}

/// The outcome of comparing two types as written, as `ShallowType::cmp` decides it.
pub open spec fn shallow_compare(a: &ShallowType, b: &ShallowType) -> TypeComparison {
    if a.nullable && debug_is(b, null_name()) {
        TypeComparison::Equal
    } else if a.refs != b.refs {
        TypeComparison::ReferenceDiff(ref_diff_value(a.refs, b.refs))
    } else if a.array_depth != b.array_depth {
        TypeComparison::NotEqual
    } else if last_name(a.main@) != last_name(b.main@) {
        TypeComparison::NotEqual
    } else if opt_str(a.file) != opt_str(b.file) && !is_primitive_spec(a) && !is_primitive_spec(b) {
        TypeComparison::NotEqual
    } else {
        TypeComparison::Equal
    }
}

/// Whether `ShallowType::cmp` can compare the two types: both print, a
/// difference in references fits an `i32`, and types of different files that
/// are not primitive both name their file.
pub open spec fn shallow_compare_ok(a: &ShallowType, b: &ShallowType) -> bool {
    &&& debug_ok(a)
    &&& debug_ok(b)
    &&& !(a.nullable && debug_is(b, null_name())) ==> {
        &&& a.refs != b.refs ==> i32::MIN <= ref_diff_spec(a.refs, b.refs) <= i32::MAX
        &&& (a.refs == b.refs && a.array_depth == b.array_depth && last_name(a.main@) == last_name(
            b.main@,
        ) && opt_str(a.file) != opt_str(b.file) && !is_primitive_spec(a) && !is_primitive_spec(b))
            ==> a.file is Some && b.file is Some
    }
}


/// A type that prints as a primitive name is primitive.
proof fn lemma_prints_primitive(t: &ShallowType, n: Seq<char>)
    requires
        is_prim_name(n),
        debug_is(t, n),
    ensures
        is_primitive_spec(t),
{
    assert(trim_amp(n) == n);
    assert(trim_q(n) == n);
    assert(trimmed_is(t, n));
}

impl ShallowType {
    /// Whether `{:?}` prints the type as exactly `name` (see `debug_is`).
    fn prints_as(&self, name: &str) -> (r: bool)
        ensures
            r == debug_is(self, name@),
    {
        self.is_fun.is_none() && self.refs == 0 && self.array_depth == 0 && self.generics.len() == 0
            && !self.nullable && self.main.len() == 1 && text_eq(self.main[0].as_str(), name)
    }

    /// Whether `{:?}` prints the type as `name` once `&` and `?` are cut (see `trimmed_is`).
    fn trims_to(&self, name: &str) -> (r: bool)
        ensures
            r == trimmed_is(self, name@),
    {
        self.is_fun.is_none() && self.array_depth == 0 && self.generics.len() == 0
            && self.main.len() == 1 && trimmed_eq(self.main[0].as_str(), name)
    }

    /// Whether the type is primitive: marked so, or named like a primitive type.
    pub fn is_primitive(&self) -> (r: bool)
        requires
            debug_ok(self),
        ensures
            r == is_primitive_spec(self),
    {
        proof {
            reveal_strlit("int");
            assert("int"@ =~= seq!['i', 'n', 't']);
            reveal_strlit("float");
            assert("float"@ =~= seq!['f', 'l', 'o', 'a', 't']);
            reveal_strlit("char");
            assert("char"@ =~= seq!['c', 'h', 'a', 'r']);
            reveal_strlit("uint");
            assert("uint"@ =~= seq!['u', 'i', 'n', 't']);
            reveal_strlit("bool");
            assert("bool"@ =~= seq!['b', 'o', 'o', 'l']);
            reveal_strlit("null");
            assert("null"@ =~= seq!['n', 'u', 'l', 'l']);
            reveal_strlit("string");
            assert("string"@ =~= seq!['s', 't', 'r', 'i', 'n', 'g']);
        }
        if self.kind == KindType::Primitive {
            return true;
        }
        let r = self.trims_to("int") || self.trims_to("float") || self.trims_to("char")
            || self.trims_to("uint") || self.trims_to("bool") || self.trims_to("null")
            || self.trims_to("string");
        proof {
            if trimmed_is(self, seq!['i', 'n', 't']) {
                assert(is_prim_name(seq!['i', 'n', 't']));
            }
            if trimmed_is(self, seq!['f', 'l', 'o', 'a', 't']) {
                assert(is_prim_name(seq!['f', 'l', 'o', 'a', 't']));
            }
            if trimmed_is(self, seq!['c', 'h', 'a', 'r']) {
                assert(is_prim_name(seq!['c', 'h', 'a', 'r']));
            }
            if trimmed_is(self, seq!['u', 'i', 'n', 't']) {
                assert(is_prim_name(seq!['u', 'i', 'n', 't']));
            }
            if trimmed_is(self, seq!['b', 'o', 'o', 'l']) {
                assert(is_prim_name(seq!['b', 'o', 'o', 'l']));
            }
            if trimmed_is(self, seq!['n', 'u', 'l', 'l']) {
                assert(is_prim_name(seq!['n', 'u', 'l', 'l']));
            }
            if trimmed_is(self, seq!['s', 't', 'r', 'i', 'n', 'g']) {
                assert(is_prim_name(seq!['s', 't', 'r', 'i', 'n', 'g']));
            }
            if !r {
                assert forall|n: Seq<char>| is_prim_name(n) implies !trimmed_is(self, n) by {}
            }
        }
        r
    }

    /// Whether the type is primitive: marked so, or printing as a primitive type.
    pub fn is_primitive_simple(&self) -> (r: bool)
        requires
            debug_ok(self),
        ensures
            r == (self.kind == KindType::Primitive || prints_primitive(self)),
    {
        proof {
            reveal_strlit("int");
            assert("int"@ =~= seq!['i', 'n', 't']);
            reveal_strlit("float");
            assert("float"@ =~= seq!['f', 'l', 'o', 'a', 't']);
            reveal_strlit("char");
            assert("char"@ =~= seq!['c', 'h', 'a', 'r']);
            reveal_strlit("uint");
            assert("uint"@ =~= seq!['u', 'i', 'n', 't']);
            reveal_strlit("bool");
            assert("bool"@ =~= seq!['b', 'o', 'o', 'l']);
            reveal_strlit("null");
            assert("null"@ =~= seq!['n', 'u', 'l', 'l']);
            reveal_strlit("string");
            assert("string"@ =~= seq!['s', 't', 'r', 'i', 'n', 'g']);
        }
        if self.kind == KindType::Primitive {
            return true;
        }
        let r = self.prints_as("int") || self.prints_as("float") || self.prints_as("char")
            || self.prints_as("uint") || self.prints_as("bool") || self.prints_as("null")
            || self.prints_as("string");
        proof {
            if debug_is(self, seq!['i', 'n', 't']) {
                assert(is_prim_name(seq!['i', 'n', 't']));
            }
            if debug_is(self, seq!['f', 'l', 'o', 'a', 't']) {
                assert(is_prim_name(seq!['f', 'l', 'o', 'a', 't']));
            }
            if debug_is(self, seq!['c', 'h', 'a', 'r']) {
                assert(is_prim_name(seq!['c', 'h', 'a', 'r']));
            }
            if debug_is(self, seq!['u', 'i', 'n', 't']) {
                assert(is_prim_name(seq!['u', 'i', 'n', 't']));
            }
            if debug_is(self, seq!['b', 'o', 'o', 'l']) {
                assert(is_prim_name(seq!['b', 'o', 'o', 'l']));
            }
            if debug_is(self, seq!['n', 'u', 'l', 'l']) {
                assert(is_prim_name(seq!['n', 'u', 'l', 'l']));
            }
            if debug_is(self, seq!['s', 't', 'r', 'i', 'n', 'g']) {
                assert(is_prim_name(seq!['s', 't', 'r', 'i', 'n', 'g']));
            }
            if !r {
                assert forall|n: Seq<char>| is_prim_name(n) implies !debug_is(self, n) by {}
            }
        }
        r
    }

    /// Whether the type prints as a primitive type.
    pub fn core_is_primitive(&self) -> (r: bool)
        requires
            debug_ok(self),
        ensures
            r == prints_primitive(self),
    {
        proof {
            reveal_strlit("int");
            assert("int"@ =~= seq!['i', 'n', 't']);
            reveal_strlit("float");
            assert("float"@ =~= seq!['f', 'l', 'o', 'a', 't']);
            reveal_strlit("char");
            assert("char"@ =~= seq!['c', 'h', 'a', 'r']);
            reveal_strlit("uint");
            assert("uint"@ =~= seq!['u', 'i', 'n', 't']);
            reveal_strlit("bool");
            assert("bool"@ =~= seq!['b', 'o', 'o', 'l']);
            reveal_strlit("null");
            assert("null"@ =~= seq!['n', 'u', 'l', 'l']);
            reveal_strlit("string");
            assert("string"@ =~= seq!['s', 't', 'r', 'i', 'n', 'g']);
        }
        let r = self.prints_as("int") || self.prints_as("float") || self.prints_as("char")
            || self.prints_as("uint") || self.prints_as("bool") || self.prints_as("null")
            || self.prints_as("string");
        proof {
            if debug_is(self, seq!['i', 'n', 't']) {
                assert(is_prim_name(seq!['i', 'n', 't']));
            }
            if debug_is(self, seq!['f', 'l', 'o', 'a', 't']) {
                assert(is_prim_name(seq!['f', 'l', 'o', 'a', 't']));
            }
            if debug_is(self, seq!['c', 'h', 'a', 'r']) {
                assert(is_prim_name(seq!['c', 'h', 'a', 'r']));
            }
            if debug_is(self, seq!['u', 'i', 'n', 't']) {
                assert(is_prim_name(seq!['u', 'i', 'n', 't']));
            }
            if debug_is(self, seq!['b', 'o', 'o', 'l']) {
                assert(is_prim_name(seq!['b', 'o', 'o', 'l']));
            }
            if debug_is(self, seq!['n', 'u', 'l', 'l']) {
                assert(is_prim_name(seq!['n', 'u', 'l', 'l']));
            }
            if debug_is(self, seq!['s', 't', 'r', 'i', 'n', 'g']) {
                assert(is_prim_name(seq!['s', 't', 'r', 'i', 'n', 'g']));
            }
            if !r {
                assert forall|n: Seq<char>| is_prim_name(n) implies !debug_is(self, n) by {}
            }
        }
        r
    }

    /// Whether this is the null type.
    pub fn is_null(&self) -> (r: bool)
        requires
            debug_ok(self),
        ensures
            r == debug_is(self, null_name()),
    {
        proof {
            reveal_strlit("null");
            assert("null"@ =~= null_name());
            if debug_is(self, seq!['i', 'n', 't']) {
                lemma_prints_primitive(self, seq!['i', 'n', 't']);
            }
            if debug_is(self, seq!['f', 'l', 'o', 'a', 't']) {
                lemma_prints_primitive(self, seq!['f', 'l', 'o', 'a', 't']);
            }
            if debug_is(self, seq!['c', 'h', 'a', 'r']) {
                lemma_prints_primitive(self, seq!['c', 'h', 'a', 'r']);
            }
            if debug_is(self, seq!['u', 'i', 'n', 't']) {
                lemma_prints_primitive(self, seq!['u', 'i', 'n', 't']);
            }
            if debug_is(self, seq!['b', 'o', 'o', 'l']) {
                lemma_prints_primitive(self, seq!['b', 'o', 'o', 'l']);
            }
            if debug_is(self, seq!['n', 'u', 'l', 'l']) {
                lemma_prints_primitive(self, seq!['n', 'u', 'l', 'l']);
            }
            if debug_is(self, seq!['s', 't', 'r', 'i', 'n', 'g']) {
                lemma_prints_primitive(self, seq!['s', 't', 'r', 'i', 'n', 'g']);
            }
        }
        self.is_primitive() && self.prints_as("null")
    }

    /// Whether this is a number type: `int`, `float`, `char` or `uint`.
    pub fn is_number(&self) -> (r: bool)
        requires
            debug_ok(self),
        ensures
            r == (debug_is(self, seq!['i', 'n', 't']) || debug_is(self, seq!['f', 'l', 'o', 'a', 't'])
                || debug_is(self, seq!['c', 'h', 'a', 'r']) || debug_is(self, seq!['u', 'i', 'n', 't'])),
    {
        proof {
            reveal_strlit("int");
            assert("int"@ =~= seq!['i', 'n', 't']);
            reveal_strlit("float");
            assert("float"@ =~= seq!['f', 'l', 'o', 'a', 't']);
            reveal_strlit("char");
            assert("char"@ =~= seq!['c', 'h', 'a', 'r']);
            reveal_strlit("uint");
            assert("uint"@ =~= seq!['u', 'i', 'n', 't']);
            reveal_strlit("bool");
            assert("bool"@ =~= seq!['b', 'o', 'o', 'l']);
            reveal_strlit("null");
            assert("null"@ =~= seq!['n', 'u', 'l', 'l']);
            reveal_strlit("string");
            assert("string"@ =~= seq!['s', 't', 'r', 'i', 'n', 'g']);
            if debug_is(self, seq!['i', 'n', 't']) {
                lemma_prints_primitive(self, seq!['i', 'n', 't']);
            }
            if debug_is(self, seq!['f', 'l', 'o', 'a', 't']) {
                lemma_prints_primitive(self, seq!['f', 'l', 'o', 'a', 't']);
            }
            if debug_is(self, seq!['c', 'h', 'a', 'r']) {
                lemma_prints_primitive(self, seq!['c', 'h', 'a', 'r']);
            }
            if debug_is(self, seq!['u', 'i', 'n', 't']) {
                lemma_prints_primitive(self, seq!['u', 'i', 'n', 't']);
            }
            if debug_is(self, seq!['b', 'o', 'o', 'l']) {
                lemma_prints_primitive(self, seq!['b', 'o', 'o', 'l']);
            }
            if debug_is(self, seq!['n', 'u', 'l', 'l']) {
                lemma_prints_primitive(self, seq!['n', 'u', 'l', 'l']);
            }
            if debug_is(self, seq!['s', 't', 'r', 'i', 'n', 'g']) {
                lemma_prints_primitive(self, seq!['s', 't', 'r', 'i', 'n', 'g']);
            }
        }
        self.is_primitive() && (self.prints_as("int") || self.prints_as("float") || self.prints_as(
            "char",
        ) || self.prints_as("uint"))
    }

    /// Whether this is the string type.
    pub fn is_string(&self) -> (r: bool)
        requires
            debug_ok(self),
        ensures
            r == debug_is(self, seq!['s', 't', 'r', 'i', 'n', 'g']),
    {
        proof {
            reveal_strlit("int");
            assert("int"@ =~= seq!['i', 'n', 't']);
            reveal_strlit("float");
            assert("float"@ =~= seq!['f', 'l', 'o', 'a', 't']);
            reveal_strlit("char");
            assert("char"@ =~= seq!['c', 'h', 'a', 'r']);
            reveal_strlit("uint");
            assert("uint"@ =~= seq!['u', 'i', 'n', 't']);
            reveal_strlit("bool");
            assert("bool"@ =~= seq!['b', 'o', 'o', 'l']);
            reveal_strlit("null");
            assert("null"@ =~= seq!['n', 'u', 'l', 'l']);
            reveal_strlit("string");
            assert("string"@ =~= seq!['s', 't', 'r', 'i', 'n', 'g']);
            if debug_is(self, seq!['i', 'n', 't']) {
                lemma_prints_primitive(self, seq!['i', 'n', 't']);
            }
            if debug_is(self, seq!['f', 'l', 'o', 'a', 't']) {
                lemma_prints_primitive(self, seq!['f', 'l', 'o', 'a', 't']);
            }
            if debug_is(self, seq!['c', 'h', 'a', 'r']) {
                lemma_prints_primitive(self, seq!['c', 'h', 'a', 'r']);
            }
            if debug_is(self, seq!['u', 'i', 'n', 't']) {
                lemma_prints_primitive(self, seq!['u', 'i', 'n', 't']);
            }
            if debug_is(self, seq!['b', 'o', 'o', 'l']) {
                lemma_prints_primitive(self, seq!['b', 'o', 'o', 'l']);
            }
            if debug_is(self, seq!['n', 'u', 'l', 'l']) {
                lemma_prints_primitive(self, seq!['n', 'u', 'l', 'l']);
            }
            if debug_is(self, seq!['s', 't', 'r', 'i', 'n', 'g']) {
                lemma_prints_primitive(self, seq!['s', 't', 'r', 'i', 'n', 'g']);
            }
        }
        self.is_primitive() && self.prints_as("string")
    }

    /// Whether this is the bool type.
    pub fn is_bool(&self) -> (r: bool)
        requires
            debug_ok(self),
        ensures
            r == debug_is(self, seq!['b', 'o', 'o', 'l']),
    {
        proof {
            reveal_strlit("int");
            assert("int"@ =~= seq!['i', 'n', 't']);
            reveal_strlit("float");
            assert("float"@ =~= seq!['f', 'l', 'o', 'a', 't']);
            reveal_strlit("char");
            assert("char"@ =~= seq!['c', 'h', 'a', 'r']);
            reveal_strlit("uint");
            assert("uint"@ =~= seq!['u', 'i', 'n', 't']);
            reveal_strlit("bool");
            assert("bool"@ =~= seq!['b', 'o', 'o', 'l']);
            reveal_strlit("null");
            assert("null"@ =~= seq!['n', 'u', 'l', 'l']);
            reveal_strlit("string");
            assert("string"@ =~= seq!['s', 't', 'r', 'i', 'n', 'g']);
            if debug_is(self, seq!['i', 'n', 't']) {
                lemma_prints_primitive(self, seq!['i', 'n', 't']);
            }
            if debug_is(self, seq!['f', 'l', 'o', 'a', 't']) {
                lemma_prints_primitive(self, seq!['f', 'l', 'o', 'a', 't']);
            }
            if debug_is(self, seq!['c', 'h', 'a', 'r']) {
                lemma_prints_primitive(self, seq!['c', 'h', 'a', 'r']);
            }
            if debug_is(self, seq!['u', 'i', 'n', 't']) {
                lemma_prints_primitive(self, seq!['u', 'i', 'n', 't']);
            }
            if debug_is(self, seq!['b', 'o', 'o', 'l']) {
                lemma_prints_primitive(self, seq!['b', 'o', 'o', 'l']);
            }
            if debug_is(self, seq!['n', 'u', 'l', 'l']) {
                lemma_prints_primitive(self, seq!['n', 'u', 'l', 'l']);
            }
            if debug_is(self, seq!['s', 't', 'r', 'i', 'n', 'g']) {
                lemma_prints_primitive(self, seq!['s', 't', 'r', 'i', 'n', 'g']);
            }
        }
        self.is_primitive() && self.prints_as("bool")
    }

    /// Compares two types as written: equal when this one is nullable and the
    /// other is null; else they differ in references, array depth, last name,
    /// or (for types that are not primitive) file, in that order.
    pub fn cmp(&self, other: &Self) -> (r: TypeComparison)
        requires
            shallow_compare_ok(self, other),
        ensures
            r == shallow_compare(self, other),
    {
        if self.nullable && other.is_null() {
            return TypeComparison::Equal;
        }
        if self.refs != other.refs {
            return TypeComparison::ReferenceDiff(ref_diff(self.refs, other.refs));
        }
        if self.array_depth != other.array_depth {
            return TypeComparison::NotEqual;
        }
        let last_same = if self.main.len() == 0 {
            other.main.len() == 0
        } else if other.main.len() == 0 {
            false
        } else {
            self.main[self.main.len() - 1] == other.main[other.main.len() - 1]
        };
        if !last_same {
            return TypeComparison::NotEqual;
        }
        if !opt_str_eq(&self.file, &other.file) && !self.is_primitive() && !other.is_primitive() {
            return TypeComparison::NotEqual;
        }
        TypeComparison::Equal
    }
}


/// Whether `t` is a plain type of the one name `name`: no references, array,
/// generics or `?`, and not a function type.
pub open spec fn is_plain(
    t: &ShallowType,
    name: Seq<char>,
    line: Line,
    file: Option<Seq<char>>,
    kind: KindType,
) -> bool {
    &&& t.is_fun is None
    &&& t.array_depth == 0
    &&& t.refs == 0
    &&& strs(t.main@) == seq![name]
    &&& t.generics@.len() == 0
    &&& t.line == line
    &&& !t.nullable
    &&& opt_str(t.file) == file
    &&& t.kind == kind
}

/// The default value of a primitive type, as a constant.
pub open spec fn default_const(t: &ShallowType) -> ConstValue {
    if debug_is(t, seq!['i', 'n', 't']) {
        ConstValue::Int(0)
    } else if debug_is(t, seq!['f', 'l', 'o', 'a', 't']) {
        ConstValue::Float(0)
    } else if debug_is(t, seq!['c', 'h', 'a', 'r']) {
        ConstValue::Char(' ')
    } else if debug_is(t, seq!['u', 'i', 'n', 't']) {
        ConstValue::Usize(0)
    } else if debug_is(t, seq!['b', 'o', 'o', 'l']) {
        ConstValue::Bool(false)
    } else if debug_is(t, null_name()) {
        ConstValue::Null
    } else {
        ConstValue::Undefined
    }
}

/// A list holding one string.
fn one_name(name: String) -> (r: Vec<String>)
    ensures
        r@ == seq![name],
        strs(r@) == seq![name@],
{
    let mut r: Vec<String> = Vec::new();
    r.push(name);
    assert(strs(r@) =~= seq![name@]);
    r
}

impl ShallowType {
    /// The type with no name and no kind.
    pub fn empty() -> (r: ShallowType)
        ensures
            r.is_fun is None,
            r.array_depth == 0,
            r.refs == 0,
            r.main@.len() == 0,
            r.generics@.len() == 0,
            r.line == (Line { line: 0, column: 0 }),
            !r.nullable,
            r.file is None,
            r.kind == KindType::NoKind,
    {
        ShallowType {
            is_fun: None,
            array_depth: 0,
            refs: 0,
            main: Vec::new(),
            generics: Vec::new(),
            line: Line::from_pos((0, 0)),
            nullable: false,
            file: None,
            kind: KindType::NoKind,
        }
    }

    /// The primitive type `null`.
    pub fn null() -> (r: ShallowType)
        ensures
            is_plain(&r, null_name(), Line { line: 0, column: 0 }, None, KindType::Primitive),
            debug_is(&r, null_name()),
    {
        let name = String::from_str("null");
        proof {
            reveal_strlit("null");
            assert("null"@ =~= null_name());
        }
        ShallowType {
            is_fun: None,
            array_depth: 0,
            refs: 0,
            main: one_name(name),
            generics: Vec::new(),
            line: Line::from_pos((0, 0)),
            nullable: false,
            file: None,
            kind: KindType::Primitive,
        }
    }

    /// The last name of the type's path.
    pub fn get_ident(&self) -> (r: &str)
        requires
            self.main@.len() > 0,
        ensures
            r@ == self.main@.last()@,
    {
        self.main[self.main.len() - 1].as_str()
    }

    /// The default value of a primitive type that is not an array; `None` for
    /// other types.
    pub fn into_const(&self) -> (r: Option<ConstValue>)
        requires
            debug_ok(self),
        ensures
            r == (if is_primitive_spec(self) && self.array_depth == 0 {
                Some(default_const(self))
            } else {
                None
            }),
    {
        if !self.is_primitive() {
            return None;
        }
        if self.array_depth != 0 {
            return None;
        }
        proof {
            reveal_strlit("int");
            assert("int"@ =~= seq!['i', 'n', 't']);
            reveal_strlit("float");
            assert("float"@ =~= seq!['f', 'l', 'o', 'a', 't']);
            reveal_strlit("char");
            assert("char"@ =~= seq!['c', 'h', 'a', 'r']);
            reveal_strlit("uint");
            assert("uint"@ =~= seq!['u', 'i', 'n', 't']);
            reveal_strlit("bool");
            assert("bool"@ =~= seq!['b', 'o', 'o', 'l']);
            reveal_strlit("null");
            assert("null"@ =~= null_name());
        }
        let res = if self.prints_as("int") {
            ConstValue::Int(0)
        } else if self.prints_as("float") {
            ConstValue::Float(0)
        } else if self.prints_as("char") {
            ConstValue::Char(' ')
        } else if self.prints_as("uint") {
            ConstValue::Usize(0)
        } else if self.prints_as("bool") {
            ConstValue::Bool(false)
        } else if self.prints_as("null") {
            ConstValue::Null
        } else {
            ConstValue::Undefined
        };
        Some(res)
    }

    /// The type of a struct of `file`.
    pub fn from_struct(ident: String, file: String, line: Line) -> (r: ShallowType)
        ensures
            is_plain(&r, ident@, line, Some(file@), KindType::Struct),
    {
        ShallowType {
            is_fun: None,
            array_depth: 0,
            refs: 0,
            main: one_name(ident),
            generics: Vec::new(),
            line,
            nullable: false,
            file: Some(file),
            kind: KindType::Struct,
        }
    }

    /// The type of a user data type of the binary `file`.
    pub fn from_userdata(ident: String, file: String, line: Line) -> (r: ShallowType)
        ensures
            is_plain(&r, ident@, line, Some(file@), KindType::UserData),
    {
        ShallowType {
            is_fun: None,
            array_depth: 0,
            refs: 0,
            main: one_name(ident),
            generics: Vec::new(),
            line,
            nullable: false,
            file: Some(file),
            kind: KindType::UserData,
        }
    }

    /// The type of an enum of `file`.
    pub fn from_enum(enum_: &Enum, file: String) -> (r: ShallowType)
        ensures
            is_plain(&r, enum_.identifier@, enum_.line, Some(file@), KindType::Enum),
    {
        ShallowType {
            is_fun: None,
            array_depth: 0,
            refs: 0,
            main: one_name(enum_.identifier.clone()),
            generics: Vec::new(),
            line: enum_.line,
            nullable: false,
            file: Some(file),
            kind: KindType::Enum,
        }
    }

    /// The type of a trait of `file`.
    pub fn from_trait(trait_: &Trait, file: String) -> (r: ShallowType)
        ensures
            is_plain(&r, trait_.identifier@, trait_.line, Some(file@), KindType::Trait),
    {
        ShallowType {
            is_fun: None,
            array_depth: 0,
            refs: 0,
            main: one_name(trait_.identifier.clone()),
            generics: Vec::new(),
            line: trait_.line,
            nullable: false,
            file: Some(file),
            kind: KindType::Trait,
        }
    }

    /// The type named by a function of `file`.
    pub fn from_fun(fun: &Function, file: String) -> (r: ShallowType)
        requires
            fun.identifier is Some,
        ensures
            is_plain(&r, fun.identifier->0@, fun.line, Some(file@), KindType::Fun),
    {
        let name = match &fun.identifier {
            Some(n) => n.clone(),
            None => String::new(),
        };
        ShallowType {
            is_fun: None,
            array_depth: 0,
            refs: 0,
            main: one_name(name),
            generics: Vec::new(),
            line: fun.line,
            nullable: false,
            file: Some(file),
            kind: KindType::Fun,
        }
    }
}

impl ShTypeBuilder {
    /// A builder of the type with no name and no kind.
    pub fn new() -> (r: ShTypeBuilder)
        ensures
            r.is_fun is None,
            r.array_depth == 0,
            r.refs == 0,
            r.path@.len() == 0,
            r.generics@.len() == 0,
            r.line == (Line { line: 0, column: 0 }),
            r.name@.len() == 0,
            !r.nullable,
            r.file is None,
            r.kind == KindType::NoKind,
    {
        ShTypeBuilder {
            is_fun: None,
            array_depth: 0,
            refs: 0,
            path: Vec::new(),
            generics: Vec::new(),
            line: Line::from_pos((0, 0)),
            name: String::new(),
            nullable: false,
            file: None,
            kind: KindType::NoKind,
        }
    }

    /// The type: its path is the builder's path followed by its name.
    pub fn build(self) -> (r: ShallowType)
        ensures
            r.is_fun == self.is_fun,
            r.array_depth == self.array_depth,
            r.refs == self.refs,
            r.main@ == self.path@.push(self.name),
            r.generics == self.generics,
            r.line == self.line,
            r.nullable == self.nullable,
            r.file == self.file,
            r.kind == self.kind,
    {
        let mut main = self.path;
        main.push(self.name);
        ShallowType {
            is_fun: self.is_fun,
            array_depth: self.array_depth,
            refs: self.refs,
            main,
            generics: self.generics,
            line: self.line,
            nullable: self.nullable,
            file: self.file,
            kind: self.kind,
        }
    }

    /// The builder with another kind.
    pub fn set_kind(self, kind: KindType) -> (r: ShTypeBuilder)
        ensures
            r == (ShTypeBuilder { kind, ..self }),
    {
        ShTypeBuilder { kind, ..self }
    }

    /// The builder with a file.
    pub fn set_file(self, file: String) -> (r: ShTypeBuilder)
        ensures
            r == (ShTypeBuilder { file: Some(file), ..self }),
    {
        ShTypeBuilder { file: Some(file), ..self }
    }

    /// The builder with `?` or without.
    pub fn set_nullable(self, nullable: bool) -> (r: ShTypeBuilder)
        ensures
            r == (ShTypeBuilder { nullable, ..self }),
    {
        ShTypeBuilder { nullable, ..self }
    }

    /// The builder of a function type.
    pub fn set_fun(self, fun: Function) -> (r: ShTypeBuilder)
        ensures
            r == (ShTypeBuilder { is_fun: Some(Box::new(fun)), ..self }),
    {
        ShTypeBuilder { is_fun: Some(Box::new(fun)), ..self }
    }

    /// The builder with another array depth.
    pub fn set_array(self, array: usize) -> (r: ShTypeBuilder)
        ensures
            r == (ShTypeBuilder { array_depth: array, ..self }),
    {
        ShTypeBuilder { array_depth: array, ..self }
    }

    /// The builder with another number of references.
    pub fn set_refs(self, refs: usize) -> (r: ShTypeBuilder)
        ensures
            r == (ShTypeBuilder { refs, ..self }),
    {
        ShTypeBuilder { refs, ..self }
    }

    /// The builder with another path.
    pub fn set_path(self, path: NestedIdent) -> (r: ShTypeBuilder)
        ensures
            r == (ShTypeBuilder { path, ..self }),
    {
        ShTypeBuilder { path, ..self }
    }

    /// The builder with another name.
    pub fn set_name(self, name: &str) -> (r: ShTypeBuilder)
        ensures
            r.name@ == name@,
            r == (ShTypeBuilder { name: r.name, ..self }),
    {
        ShTypeBuilder { name: name.to_owned(), ..self }
    }

    /// The builder with other generic arguments.
    pub fn set_generics(self, generics: GenericExpr) -> (r: ShTypeBuilder)
        ensures
            r == (ShTypeBuilder { generics, ..self }),
    {
        ShTypeBuilder { generics, ..self }
    }

    /// The builder with another line.
    pub fn set_line(self, line: Line) -> (r: ShTypeBuilder)
        ensures
            r == (ShTypeBuilder { line, ..self }),
    {
        ShTypeBuilder { line, ..self }
    }
}


/// What the analysis of a source file finds wrong.
pub enum ErrType {
    /// the same number assigned to two or more enum variants
    EnumVariantAssignedNumber(usize, Line),
    /// the same identifier given to two or more enum variants
    EnumVariantAssignedIdent(String, Line),
    /// the same identifier declared twice
    ConflictingNames(String, Line),
    /// the same identifier given to two or more arguments
    ConflictingArgsName(String, Line),
    /// an `impl` on an identifier that cannot have one (only an enum, a struct or a type can)
    BadImpl(String, IdentifierKinds, Line),
    /// an identifier that has not been declared
    NonExistentIdentifier(String, Line),
    /// the same identifier given to two or more struct fields
    StructVariantAssignedIdent(String, Line),
    /// an error in an expression
    TreeTransformError(TreeTransformError, Line),
    /// a register that does not exist
    InvalidRegister(String, Line),
    /// a constant that a binary library cannot hold
    InvalidConstant(Tokens, Line),
    /// an import of a file that does not exist
    ImportPathDoesNotExist(String, Line),
    /// a code block that is none
    NotCodeBlock(Line),
    /// an operator that is none
    NotOperator(Line),
    /// a constant initialized with something that is not constant
    CannotInitializeConstant(String),
    /// an expression that lacks an operator
    MissingOperator(Line),
}

/// A place in the code where a call must be corrected to reach `function`.
pub struct Correction {
    pub location: usize,
    pub function: InnerPath,
}


/// Whether one of `ids` is `name`.
pub open spec fn has_id(ids: Seq<(String, IdentifierKinds)>, name: Seq<char>) -> bool {
    exists|i: int| 0 <= i < ids.len() && (#[trigger] ids[i]).0@ == name
}

/// Whether `i` is the first place of `name` in `ids`.
pub open spec fn first_id(ids: Seq<(String, IdentifierKinds)>, name: Seq<char>, i: int) -> bool {
    &&& 0 <= i < ids.len()
    &&& ids[i].0@ == name
    &&& forall|j: int| 0 <= j < i ==> (#[trigger] ids[j]).0@ != name
}

/// The identifiers after registering `name`, and whether it was registered:
/// a name that is there already is refused.
pub open spec fn register_spec(ids: Seq<(String, IdentifierKinds)>, name: String, kind: IdentifierKinds) -> (
    Seq<(String, IdentifierKinds)>,
    bool,
) {
    if has_id(ids, name@) {
        (ids, false)
    } else {
        (ids.push((name, kind)), true)
    }
}

/// Whether one of `consts` is named `name`.
pub open spec fn has_const(consts: Seq<Constant>, name: Seq<char>) -> bool {
    exists|i: int| 0 <= i < consts.len() && (#[trigger] consts[i]).identifier@ == name
}

impl Dictionary {
    /// The dictionary of a file that defines nothing.
    pub fn new() -> (r: Dictionary)
        ensures
            r.functions@.len() == 0,
            r.types@.len() == 0,
            r.enums@.len() == 0,
            r.structs@.len() == 0,
            r.variables@.len() == 0,
            r.constants@.len() == 0,
            r.identifiers@.len() == 0,
            r.imports@.len() == 0,
            r.traits@.len() == 0,
            r.errors@.len() == 0,
            r.uses@.len() == 0,
    {
        Dictionary {
            functions: Vec::new(),
            types: Vec::new(),
            enums: Vec::new(),
            structs: Vec::new(),
            variables: Vec::new(),
            constants: Vec::new(),
            identifiers: Vec::new(),
            imports: Vec::new(),
            traits: Vec::new(),
            errors: Vec::new(),
            uses: Vec::new(),
        }
    }

    /// The first place of `identifier` among the identifiers.
    pub fn index_of(&self, identifier: String) -> (r: Option<usize>)
        ensures
            r matches Some(i) ==> first_id(self.identifiers@, identifier@, i as int),
            r is None ==> !has_id(self.identifiers@, identifier@),
    {
        let mut i: usize = 0;
        while i < self.identifiers.len()
            invariant
                i <= self.identifiers@.len(),
                forall|j: int| 0 <= j < i ==> (#[trigger] self.identifiers@[j]).0@ != identifier@,
            decreases self.identifiers@.len() - i,
        {
            if self.identifiers[i].0 == identifier {
                return Some(i);
            }
            i = i + 1;
        }
        None
    }

    /// What the first identifier `identifier` names.
    pub fn type_of(&self, identifier: &str) -> (r: Option<&IdentifierKinds>)
        ensures
            r matches Some(k) ==> exists|i: int|
                first_id(self.identifiers@, identifier@, i) && *k == self.identifiers@[i].1,
            r is None ==> !has_id(self.identifiers@, identifier@),
    {
        let mut i: usize = 0;
        while i < self.identifiers.len()
            invariant
                i <= self.identifiers@.len(),
                forall|j: int| 0 <= j < i ==> (#[trigger] self.identifiers@[j]).0@ != identifier@,
            decreases self.identifiers@.len() - i,
        {
            if text_eq(self.identifiers[i].0.as_str(), identifier) {
                assert(first_id(self.identifiers@, identifier@, i as int));
                return Some(&self.identifiers[i].1);
            }
            i = i + 1;
        }
        None
    }

    /// Registers `name` as naming `kind`, unless it is registered already;
    /// says whether it was registered.
    pub fn register_id(&mut self, name: String, kind: IdentifierKinds) -> (r: bool)
        ensures
            (final(self).identifiers@, r) == register_spec(old(self).identifiers@, name, kind),
            *final(self) == (Dictionary { identifiers: final(self).identifiers, ..*old(self) }),
    {
        if self.contains(&name) {
            return false;
        }
        self.identifiers.push((name, kind));
        true
    }

    /// Registers `name` as naming `kind`, whether or not it is registered already.
    pub fn force_id(&mut self, name: String, kind: IdentifierKinds)
        ensures
            final(self).identifiers@ == old(self).identifiers@.push((name, kind)),
            *final(self) == (Dictionary { identifiers: final(self).identifiers, ..*old(self) }),
    {
        self.identifiers.push((name, kind));
    }

    /// Whether `name` is registered.
    pub fn contains(&self, name: &String) -> (r: bool)
        ensures
            r == has_id(self.identifiers@, name@),
    {
        let mut i: usize = 0;
        while i < self.identifiers.len()
            invariant
                i <= self.identifiers@.len(),
                forall|j: int| 0 <= j < i ==> (#[trigger] self.identifiers@[j]).0@ != name@,
            decreases self.identifiers@.len() - i,
        {
            if self.identifiers[i].0 == *name {
                return true;
            }
            i = i + 1;
        }
        false
    }

    /// The first constant named `name`.
    pub fn find_const(&self, name: &str) -> (r: Option<&Constant>)
        ensures
            r matches Some(c) ==> exists|i: int|
                0 <= i < self.constants@.len() && *c == self.constants@[i] && c.identifier@ == name@
                    && forall|j: int| 0 <= j < i ==> (#[trigger] self.constants@[j]).identifier@ != name@,
            r is None ==> !has_const(self.constants@, name@),
    {
        let mut i: usize = 0;
        while i < self.constants.len()
            invariant
                i <= self.constants@.len(),
                forall|j: int| 0 <= j < i ==> (#[trigger] self.constants@[j]).identifier@ != name@,
            decreases self.constants@.len() - i,
        {
            if text_eq(self.constants[i].identifier.as_str(), name) {
                return Some(&self.constants[i]);
            }
            i = i + 1;
        }
        None
    }
}

/// A name that has been registered is known afterwards, and registering it
/// again is refused and changes nothing.
pub proof fn law_register_once(ids: Seq<(String, IdentifierKinds)>, name: String, kind: IdentifierKinds, kind2: IdentifierKinds)
    ensures
        has_id(register_spec(ids, name, kind).0, name@),
        register_spec(register_spec(ids, name, kind).0, name, kind2) == (register_spec(ids, name, kind).0, false),
{
    if !has_id(ids, name@) {
        let s = ids.push((name, kind));
        assert(s[ids.len() as int].0@ == name@);
    }
}


/// The values of the arguments of a function of a binary library.
pub open spec fn bargs_view(v: Seq<(String, Kind, MemoryTypes, Line)>) -> Seq<ArgV> {
    Seq::new(v.len(), |i: int| ArgV { identifier: v[i].0@, kind: v[i].1@, line: v[i].3 })
}

impl Arg {
    /// The argument of a function of a binary library, without its place.
    pub fn from_barg(barg: &(String, Kind, MemoryTypes, Line)) -> (r: Arg)
        ensures
            r@ == (ArgV { identifier: barg.0@, kind: barg.1@, line: barg.3 }),
    {
        Arg { identifier: barg.0.clone(), kind: barg.1.copy(), line: barg.3 }
    }
}

impl ShallowType {
    /// The type named by a function of the binary `file`.
    pub fn bfrom_fun(fun: &BinFunction, file: String) -> (r: ShallowType)
        ensures
            is_plain(&r, fun.name@, Line { line: 0, column: 0 }, Some(file@), KindType::BinFun),
    {
        ShallowType {
            is_fun: None,
            array_depth: 0,
            refs: 0,
            main: one_name(fun.name.clone()),
            generics: Vec::new(),
            line: Line::from_pos((0, 0)),
            nullable: false,
            file: Some(file),
            kind: KindType::BinFun,
        }
    }
}

impl Kind {
    /// The type of a function of the binary `file`: its arguments and return type.
    pub fn bfrom_fun(fun: &BinFunction, file: String, line: Line) -> (r: Kind)
        ensures
            r@ == (KindV {
                body: TypeBodyV::Function {
                    args: bargs_view(fun.args@),
                    return_type: Box::new(Some(fun.return_type@)),
                    refs: 0,
                },
                line,
                file: Some(file@),
            }),
    {
        let mut args: Vec<Arg> = Vec::new();
        let mut i: usize = 0;
        while i < fun.args.len()
            invariant
                i <= fun.args@.len(),
                args@.len() == i,
                forall|j: int| 0 <= j < i ==> #[trigger] arg_view(args@[j]) == bargs_view(fun.args@)[j],
            decreases fun.args@.len() - i,
        {
            args.push(Arg::from_barg(&fun.args[i]));
            i = i + 1;
        }
        assert forall|j: int| 0 <= j < args@.len() implies args_view(args@)[j] == bargs_view(fun.args@)[j] by {
            assert(arg_view(args@[j]) == bargs_view(fun.args@)[j]);
        }
        assert(args_view(args@) =~= bargs_view(fun.args@));
        Kind {
            body: TypeBody::Function {
                args,
                return_type: Box::new(Some(fun.return_type.copy())),
                refs: 0,
            },
            line,
            file: Some(file),
        }
    }
}

/// Whether one of `fields` is named `name`.
pub open spec fn has_field(fields: Seq<(String, Kind)>, name: Seq<char>) -> bool {
    exists|i: int| 0 <= i < fields.len() && (#[trigger] fields[i]).0@ == name
}

/// Whether one of `funs` has the identifier `name`.
pub open spec fn has_fun(funs: Seq<Function>, name: Seq<char>) -> bool {
    exists|i: int| 0 <= i < funs.len() && ((#[trigger] funs[i]).identifier matches Some(id) && id@ == name)
}

/// Whether one of `overloads` takes an argument named `name`.
pub open spec fn has_overload_arg(overloads: Seq<Overload>, name: Seq<char>) -> bool {
    exists|i: int| 0 <= i < overloads.len() && (#[trigger] overloads[i]).arg.identifier@ == name
}

impl Struct {
    /// The member of the struct named `name`: a field, with its place among
    /// the fields, else a method.
    pub fn get_field(&self, name: &str) -> (r: Option<(CompoundField, usize)>)
        requires
            has_overload_arg(self.overloads@, name@) ==> has_field(self.fields@, name@) || has_fun(
                self.functions@,
                name@,
            ),
        ensures
            has_field(self.fields@, name@) ==> (r matches Some((CompoundField::Field(f), i)) && f@
                == name@ && i < self.fields@.len() && self.fields@[i as int].0@ == name@ && forall|
                j: int,
            |
                0 <= j < i ==> (#[trigger] self.fields@[j]).0@ != name@),
            !has_field(self.fields@, name@) && has_fun(self.functions@, name@) ==> (r matches Some(
                (CompoundField::Method(m), 0),
            ) && m@ == name@),
            !has_field(self.fields@, name@) && !has_fun(self.functions@, name@) ==> r is None,
    {
        let mut i: usize = 0;
        while i < self.fields.len()
            invariant
                i <= self.fields@.len(),
                forall|j: int| 0 <= j < i ==> (#[trigger] self.fields@[j]).0@ != name@,
            decreases self.fields@.len() - i,
        {
            if text_eq(self.fields[i].0.as_str(), name) {
                return Some((CompoundField::Field(self.fields[i].0.clone()), i));
            }
            i = i + 1;
        }
        let mut k: usize = 0;
        while k < self.functions.len()
            invariant
                k <= self.functions@.len(),
                forall|j: int| 0 <= j < self.fields@.len() ==> (#[trigger] self.fields@[j]).0@ != name@,
                forall|j: int| 0 <= j < k ==> !((#[trigger] self.functions@[j]).identifier matches Some(id) && id@ == name@),
            decreases self.functions@.len() - k,
        {
            match &self.functions[k].identifier {
                Some(ident) => {
                    if text_eq(ident.as_str(), name) {
                        return Some((CompoundField::Method(ident.clone()), 0));
                    }
                },
                None => {},
            }
            k = k + 1;
        }
        let mut o: usize = 0;
        while o < self.overloads.len()
            invariant
                o <= self.overloads@.len(),
                has_overload_arg(self.overloads@, name@) ==> has_field(self.fields@, name@) || has_fun(
                    self.functions@,
                    name@,
                ),
                forall|j: int| 0 <= j < self.fields@.len() ==> (#[trigger] self.fields@[j]).0@ != name@,
                forall|j: int| 0 <= j < self.functions@.len() ==> !((#[trigger] self.functions@[j]).identifier matches Some(id) && id@ == name@),
                forall|j: int| 0 <= j < o ==> (#[trigger] self.overloads@[j]).arg.identifier@ != name@,
            decreases self.overloads@.len() - o,
        {
            if text_eq(self.overloads[o].arg.identifier.as_str(), name) {
                assert(false);
            }
            o = o + 1;
        }
        None
    }
}


/// The dictionaries of the imports of a file, where they are loaded.
pub enum Imports {
    Dll(String, Option<crate::libloader::Dictionary>),
    Rd(String, Option<Dictionary>),
    RSO(String, Option<Dictionary>),
}

/// The type of a constant value: `name`, a primitive type.
pub open spec fn prim_named(t: ShallowType, name: Seq<char>) -> bool {
    is_plain(&t, name, Line { line: 0, column: 0 }, None, KindType::Primitive)
}

/// A primitive type of the name `name`.
fn primitive(name: &str) -> (r: ShallowType)
    ensures
        prim_named(r, name@),
{
    ShallowType {
        is_fun: None,
        array_depth: 0,
        refs: 0,
        main: one_name(name.to_owned()),
        generics: Vec::new(),
        line: Line::from_pos((0, 0)),
        nullable: false,
        file: None,
        kind: KindType::Primitive,
    }
}

impl ConstValue {
    /// Whether the value is an array.
    pub fn is_array(&self) -> (r: bool)
        ensures
            r == (*self is Array),
    {
        match self {
            ConstValue::Array(_) => true,
            _ => false,
        }
    }

    /// The type of the value: a number is an `int`; an array is an array of
    /// a primitive type with no name; an undefined value has the empty type.
    pub fn gen_type(&self) -> (r: Option<ShallowType>)
        requires
            !(*self is Function),
        ensures
            r is Some,
            *self is Number || *self is Int ==> prim_named(r->0, seq!['i', 'n', 't']),
            *self is Float ==> prim_named(r->0, seq!['f', 'l', 'o', 'a', 't']),
            *self is Char ==> prim_named(r->0, seq!['c', 'h', 'a', 'r']),
            *self is Bool ==> prim_named(r->0, seq!['b', 'o', 'o', 'l']),
            *self is Usize ==> prim_named(r->0, seq!['u', 'i', 'n', 't']),
            *self is String ==> prim_named(r->0, seq!['s', 't', 'r', 'i', 'n', 'g']),
            *self is Null ==> prim_named(r->0, null_name()),
            *self is Array ==> {
                let t = r->0;
                &&& t.is_fun is None
                &&& t.array_depth == 1
                &&& t.refs == 0
                &&& t.main@.len() == 0
                &&& t.generics@.len() == 0
                &&& t.line == (Line { line: 0, column: 0 })
                &&& !t.nullable
                &&& t.file is None
                &&& t.kind == KindType::Primitive
            },
            *self is Undefined ==> {
                let t = r->0;
                &&& t.is_fun is None
                &&& t.array_depth == 0
                &&& t.refs == 0
                &&& t.main@.len() == 0
                &&& t.generics@.len() == 0
                &&& t.line == (Line { line: 0, column: 0 })
                &&& !t.nullable
                &&& t.file is None
                &&& t.kind == KindType::NoKind
            },
    {
        proof {
            reveal_strlit("int");
            reveal_strlit("float");
            reveal_strlit("char");
            reveal_strlit("bool");
            reveal_strlit("uint");
            reveal_strlit("string");
            reveal_strlit("null");
            assert("int"@ =~= seq!['i', 'n', 't']);
            assert("float"@ =~= seq!['f', 'l', 'o', 'a', 't']);
            assert("char"@ =~= seq!['c', 'h', 'a', 'r']);
            assert("bool"@ =~= seq!['b', 'o', 'o', 'l']);
            assert("uint"@ =~= seq!['u', 'i', 'n', 't']);
            assert("string"@ =~= seq!['s', 't', 'r', 'i', 'n', 'g']);
            assert("null"@ =~= null_name());
        }
        let res = match self {
            ConstValue::Number(_) => primitive("int"),
            ConstValue::Int(_) => primitive("int"),
            ConstValue::Float(_) => primitive("float"),
            ConstValue::Char(_) => primitive("char"),
            ConstValue::Bool(_) => primitive("bool"),
            ConstValue::Usize(_) => primitive("uint"),
            ConstValue::String(_) => primitive("string"),
            ConstValue::Null => primitive("null"),
            ConstValue::Function(_) => {
                assert(false);
                ShallowType::empty()
            },
            ConstValue::Array(_) => ShallowType {
                is_fun: None,
                array_depth: 1,
                refs: 0,
                main: Vec::new(),
                generics: Vec::new(),
                line: Line::from_pos((0, 0)),
                nullable: false,
                file: None,
                kind: KindType::Primitive,
            },
            ConstValue::Undefined => ShallowType::empty(),
        };
        Some(res)
    }
}

} // verus!
