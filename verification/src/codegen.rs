//! Finding the objects that code names: functions, structs, imports and the
//! types of names, across the dictionaries of source files and binary
//! libraries.
use vstd::prelude::*;
use crate::context::{find_key, has_key, key_at, keys_unique, lemma_value_of, main_file, main_fun, value_of, Context};
use crate::lexer::{text_eq, Line, Operators};
use crate::libloader::{Function as BinFunction, Struct as BinStruct, UserData};
use crate::types::{paths_view, args_view, bargs_view, Arg, Dictionary, Enum, Function, Import, ImportKinds, InnerPath, InnerPathV, Kind, KindType, KindV, Struct, Trait, TypeBody, TypeBodyV, TypeComparison};
use crate::libloader::Dictionary as BinDictionary;

verus! {

/// A member of a compound value.
pub enum CompoundField {
    Field(String),
    Method(String),
    OverloadedOperator(Operators),
    TraitMethod(String, String),
}

impl CompoundField {
    /// The name of a field or a method.
    pub fn get_ident(&self) -> (r: String)
        requires
            *self is Field || *self is Method,
        ensures
            *self matches CompoundField::Field(i) ==> r@ == i@,
            *self matches CompoundField::Method(i) ==> r@ == i@,
    {
        match self {
            CompoundField::Field(ident) => ident.clone(),
            CompoundField::Method(ident) => ident.clone(),
            _ => {
                assert(false);
                String::new()
            },
        }
    }

    /// A copy of the member.
    pub fn copy(&self) -> (r: CompoundField)
        ensures
            r == *self,
    {
        match self {
            CompoundField::Field(i) => CompoundField::Field(i.clone()),
            CompoundField::Method(i) => CompoundField::Method(i.clone()),
            CompoundField::OverloadedOperator(o) => CompoundField::OverloadedOperator(*o),
            CompoundField::TraitMethod(a, b) => CompoundField::TraitMethod(a.clone(), b.clone()),
        }
    }
}

/// What a call names: a function of a source file, one of a binary library,
/// or a value of a function type.
pub enum FunctionKind {
    Fun(InnerPath),
    Binary(InnerPath),
    Dynamic(Kind),
}

/// What an expression stands for while code is generated.
pub enum Position {
    Function(FunctionKind, Kind),
    CompoundField(InnerPath, CompoundField, Kind),
    Import(String),
    BinImport(String),
    Variable(String, Kind),
    Pointer(Kind),
    Compound(Kind),
    Value(Kind),
}

/// Whether a value or a place is expected.
pub enum ExpectedValueType {
    Value,
    Pointer,
}

/// What goes wrong while code is generated.
pub enum CodegenError {
    CannotInitializeConstant,
    FunctionNotFound(InnerPath),
    ExpectedBool(Line),
    /// (depth, line)
    DerefereString(usize, Line),
    /// (depth, line)
    ReferenceString(usize, Line),
    /// (expected, got, comparison, line)
    VariableTypeMismatch(Kind, Kind, TypeComparison, Line),
    NotInitializedNoType(Line),
    TypeNotNullable(Line),
    /// (ident, this_line, other_line)
    VariableAlreadyDeclared(String, Line, Line),
    VariableNotFound(String, Line),
    CannotIndexFile(Line),
    CannotIndexFunction(Line),
    CanCallOnlyFunctions(Line),
    /// (expected, got, comparison, line)
    ArgTypeMismatch(Arg, Kind, TypeComparison, Line),
    CannotAttachMethodsToFunctions(Line),
    ImportIsNotAValidValue(Line),
    IncorrectArgs(Line),
    ExressionNotHandledProperly(Line),
    InvalidOperator(Kind, Kind, Operators, Line),
    /// (to, from, line)
    CouldNotCastTo(Kind, Kind, Line),
    ExpectedNumber(Line),
    /// (kind, unary, line)
    UnaryNotApplicable(Kind, Operators, Line),
    CoudNotCastAnArrayToANonArray(Kind, Line),
    FunctionDoesNotReturn(Line),
    /// (expected, got, line)
    IncorrectNumberOfArgs(usize, usize, Line),
    ImportNotFound(String, Line),
    KindNotFound(String, Line),
    CannotRefDerefNumLiteral(Line),
    CannotIndexNonArray(Position, Line),
    FieldNotInStruct(String, Line),
    CannotDereference(usize, Kind, Line),
    CannotReference(usize, Kind, Line),
    CannotGetKind(Position),
    CannotCallType(Kind, Line),
    CannotCastNull(Kind, Line),
    SwitchWithoutCases(Line),
}

impl FunctionKind {
    /// A copy of the call target.
    pub fn copy(&self) -> (r: FunctionKind)
        ensures
            (*self matches FunctionKind::Fun(p) ==> (r matches FunctionKind::Fun(q) && q@ == p@)),
            (*self matches FunctionKind::Binary(p) ==> (r matches FunctionKind::Binary(q) && q@ == p@)),
            (*self matches FunctionKind::Dynamic(k) ==> (r matches FunctionKind::Dynamic(q) && q@ == k@)),
    {
        match self {
            FunctionKind::Fun(p) => FunctionKind::Fun(p.copy()),
            FunctionKind::Binary(p) => FunctionKind::Binary(p.copy()),
            FunctionKind::Dynamic(k) => FunctionKind::Dynamic(k.copy()),
        }
    }
}

/// The type that a position has, where it has one.
pub open spec fn position_kind(p: Position) -> Option<Kind> {
    match p {
        Position::Function(_, k) => Some(k),
        Position::CompoundField(_, _, k) => Some(k),
        Position::Variable(_, k) => Some(k),
        Position::Pointer(k) => Some(k),
        Position::Compound(k) => Some(k),
        Position::Value(k) => Some(k),
        Position::Import(_) => None,
        Position::BinImport(_) => None,
    }
}

impl Position {
    /// A copy of the position, equal to it where it holds no type, and with
    /// an equal type where it holds one.
    pub fn copy(&self) -> (r: Position)
        ensures
            (*self matches Position::Import(s) ==> r == Position::Import(s)),
            (*self matches Position::BinImport(s) ==> r == Position::BinImport(s)),
            position_kind(*self) matches Some(k) ==> (position_kind(r) matches Some(q) && q@ == k@),
    {
        match self {
            Position::Function(f, k) => Position::Function(f.copy(), k.copy()),
            Position::CompoundField(p, c, k) => Position::CompoundField(p.copy(), c.copy(), k.copy()),
            Position::Import(s) => Position::Import(s.clone()),
            Position::BinImport(s) => Position::BinImport(s.clone()),
            Position::Variable(s, k) => Position::Variable(s.clone(), k.copy()),
            Position::Pointer(k) => Position::Pointer(k.copy()),
            Position::Compound(k) => Position::Compound(k.copy()),
            Position::Value(k) => Position::Value(k.copy()),
        }
    }

    /// The type of the position; an import has none.
    pub fn get_kind(&self) -> (r: Result<Kind, CodegenError>)
        ensures
            position_kind(*self) matches Some(k) ==> (r matches Ok(q) && q@ == k@),
            position_kind(*self) is None ==> (r matches Err(CodegenError::CannotGetKind(p)) && p
                == *self),
    {
        match self {
            Position::Function(_, kind) => Ok(kind.copy()),
            Position::CompoundField(_, _, kind) => Ok(kind.copy()),
            Position::Variable(_, kind) => Ok(kind.copy()),
            Position::Pointer(kind) => Ok(kind.copy()),
            Position::Compound(kind) => Ok(kind.copy()),
            Position::Value(kind) => Ok(kind.copy()),
            _ => Err(CodegenError::CannotGetKind(self.copy())),
        }
    }
}


/// Whether `f` has the identifier `name`.
pub open spec fn fun_named(f: Function, name: Seq<char>) -> bool {
    f.identifier matches Some(id) && id@ == name
}

/// Whether `f` has an identifier, and it is not `name`.
pub open spec fn named_other(f: Function, name: Seq<char>) -> bool {
    f.identifier matches Some(id) && id@ != name
}

/// Whether `i` is the place of the first function of `funs` named `name`,
/// every one before it having a name.
pub open spec fn first_fun(funs: Seq<Function>, name: Seq<char>, i: int) -> bool {
    &&& 0 <= i < funs.len()
    &&& fun_named(funs[i], name)
    &&& forall|j: int| 0 <= j < i ==> named_other(#[trigger] funs[j], name)
}

/// Whether every function of `funs` has a name, and none is `name`.
pub open spec fn no_fun(funs: Seq<Function>, name: Seq<char>) -> bool {
    forall|j: int| 0 <= j < funs.len() ==> named_other(#[trigger] funs[j], name)
}

/// Whether a search for `name` through `funs` meets no function without a name.
pub open spec fn scan_ok(funs: Seq<Function>, name: Seq<char>) -> bool {
    (exists|i: int| first_fun(funs, name, i)) || no_fun(funs, name)
}

/// Whether function `i` of struct `s` is the first function named `name`
/// among the structs named `b`, taken in order.
pub open spec fn struct_found(structs: Seq<Struct>, b: Seq<char>, name: Seq<char>, s: int, i: int) -> bool {
    &&& 0 <= s < structs.len()
    &&& structs[s].identifier@ == b
    &&& first_fun(structs[s].functions@, name, i)
    &&& forall|t: int|
        0 <= t < s && (#[trigger] structs[t]).identifier@ == b ==> no_fun(structs[t].functions@, name)
}

/// Whether no struct named `b` has a function named `name`, and all of their
/// functions have names.
pub open spec fn struct_none(structs: Seq<Struct>, b: Seq<char>, name: Seq<char>) -> bool {
    forall|t: int|
        0 <= t < structs.len() && (#[trigger] structs[t]).identifier@ == b ==> no_fun(structs[t].functions@, name)
}

/// Whether the search for the function at `p` in `d` meets no function
/// without a name.
pub open spec fn get_ok(d: Dictionary, p: InnerPathV) -> bool {
    match p.block {
        None => scan_ok(d.functions@, p.ident),
        Some(b) => (exists|s: int, i: int| struct_found(d.structs@, b, p.ident, s, i))
            || struct_none(d.structs@, b, p.ident),
    }
}

/// Whether the function at `p` is found in `d`, as `f`.
pub open spec fn found_in(d: Dictionary, p: InnerPathV, f: Function) -> bool {
    match p.block {
        None => exists|i: int| first_fun(d.functions@, p.ident, i) && f == d.functions@[i],
        Some(b) => exists|s: int, i: int|
            struct_found(d.structs@, b, p.ident, s, i) && f == d.structs@[s].functions@[i],
    }
}

/// Whether no function at `p` is in `d`.
pub open spec fn missing_in(d: Dictionary, p: InnerPathV) -> bool {
    match p.block {
        None => no_fun(d.functions@, p.ident),
        Some(b) => struct_none(d.structs@, b, p.ident),
    }
}

/// The first function of `funs` named `name`.
fn scan_funs<'a>(funs: &'a Vec<Function>, name: &str) -> (r: Option<usize>)
    requires
        scan_ok(funs@, name@),
    ensures
        r matches Some(i) ==> first_fun(funs@, name@, i as int),
        r is None ==> no_fun(funs@, name@),
{
    let mut i: usize = 0;
    while i < funs.len()
        invariant
            i <= funs@.len(),
            scan_ok(funs@, name@),
            forall|j: int| 0 <= j < i ==> named_other(#[trigger] funs@[j], name@),
        decreases funs@.len() - i,
    {
        match &funs[i].identifier {
            Some(id) => {
                if text_eq(id.as_str(), name) {
                    return Some(i);
                }
            },
            None => {
                proof {
                    assert(!named_other(funs@[i as int], name@));
                    assert(!no_fun(funs@, name@));
                    let w = choose|w: int| first_fun(funs@, name@, w);
                    assert(w > i ==> named_other(funs@[i as int], name@));
                }
                assert(false);
            },
        }
        i = i + 1;
    }
    None
}

impl InnerPath {
    /// The path of the main function.
    pub fn main() -> (r: InnerPath)
        ensures
            r@ == (InnerPathV {
                file: seq!['m', 'a', 'i', 'n', '.', 'r', 'd'],
                block: None,
                ident: seq!['m', 'a', 'i', 'n'],
                kind: ImportKinds::Rd,
            }),
    {
        proof {
            reveal_strlit("main.rd");
            reveal_strlit("main");
        }
        let r = InnerPath {
            file: String::from_str("main.rd"),
            block: None,
            ident: String::from_str("main"),
            kind: ImportKinds::Rd,
        };
        assert(r.file@ =~= seq!['m', 'a', 'i', 'n', '.', 'r', 'd']);
        assert(r.ident@ =~= seq!['m', 'a', 'i', 'n']);
        r
    }

    /// The function of a source file at this path: a function of the file, or
    /// a method of the first struct named by the block that has one so named.
    pub fn get<'a>(&'a self, objects: &'a Context) -> (r: Result<&'a Function, CodegenError>)
        requires
            objects.wf(),
            has_key(objects.0@, self.file@) ==> get_ok(value_of(objects.0@, self.file@), self@),
        ensures
            r matches Ok(f) ==> has_key(objects.0@, self.file@) && found_in(
                value_of(objects.0@, self.file@),
                self@,
                *f,
            ),
            r matches Err(e) ==> (e matches CodegenError::FunctionNotFound(q) && q@ == self@) && (
            !has_key(objects.0@, self.file@) || missing_in(value_of(objects.0@, self.file@), self@)),
    {
        let fi = match find_key(&objects.0, self.file.as_str()) {
            Some(fi) => fi,
            None => {
                return Err(CodegenError::FunctionNotFound(self.copy()));
            },
        };
        proof {
            lemma_value_of(objects.0@, self.file@, fi as int);
        }
        let file = &objects.0[fi].1;
        match &self.block {
            Some(b) => {
                let ghost bv = b@;
                let mut s: usize = 0;
                while s < file.structs.len()
                    invariant
                        s <= file.structs@.len(),
                        self.block == Some(*b),
                        get_ok(*file, self@),
                        has_key(objects.0@, self.file@),
                        value_of(objects.0@, self.file@) == *file,
                        forall|t: int|
                            0 <= t < s && (#[trigger] file.structs@[t]).identifier@ == b@ ==> no_fun(
                                file.structs@[t].functions@,
                                self.ident@,
                            ),
                    decreases file.structs@.len() - s,
                {
                    if file.structs[s].identifier == *b {
                        let funs = &file.structs[s].functions;
                        proof {
                            if !scan_ok(funs@, self.ident@) {
                                if exists|s2: int, i2: int| struct_found(file.structs@, b@, self.ident@, s2, i2) {
                                    let (s2, i2) = choose|s2: int, i2: int|
                                        struct_found(file.structs@, b@, self.ident@, s2, i2);
                                    if s2 < s {
                                        assert(no_fun(file.structs@[s2].functions@, self.ident@));
                                        assert(named_other(file.structs@[s2].functions@[i2], self.ident@));
                                    } else if s2 > s {
                                        assert(no_fun(funs@, self.ident@));
                                    } else {
                                        assert(first_fun(funs@, self.ident@, i2));
                                    }
                                } else {
                                    assert(no_fun(funs@, self.ident@));
                                }
                            }
                        }
                        match scan_funs(funs, self.ident.as_str()) {
                            Some(i) => {
                                assert(struct_found(file.structs@, b@, self.ident@, s as int, i as int));
                                return Ok(&funs[i]);
                            },
                            None => {},
                        }
                    }
                    s = s + 1;
                }
                Err(CodegenError::FunctionNotFound(self.copy()))
            },
            None => {
                match scan_funs(&file.functions, self.ident.as_str()) {
                    Some(i) => Ok(&file.functions[i]),
                    None => Err(CodegenError::FunctionNotFound(self.copy())),
                }
            },
        }
    }
}


/// Whether `i` is the first place in `s` of an item that `p` accepts.
pub open spec fn first_where<T>(s: Seq<T>, p: spec_fn(T) -> bool, i: int) -> bool {
    &&& 0 <= i < s.len()
    &&& p(s[i])
    &&& forall|j: int| 0 <= j < i ==> !p(#[trigger] s[j])
}

/// Whether `p` accepts no item of `s`.
pub open spec fn none_where<T>(s: Seq<T>, p: spec_fn(T) -> bool) -> bool {
    forall|j: int| 0 <= j < s.len() ==> !p(#[trigger] s[j])
}

/// There is one first place of an accepted item.
pub proof fn lemma_first_unique<T>(s: Seq<T>, p: spec_fn(T) -> bool, i: int, j: int)
    requires
        first_where(s, p, i),
        first_where(s, p, j),
    ensures
        i == j,
{
    if i < j {
        assert(!p(s[i]));
    } else if j < i {
        assert(!p(s[j]));
    }
}

/// There is one first function of a name.
pub proof fn lemma_first_fun_unique(funs: Seq<Function>, name: Seq<char>, i: int, j: int)
    requires
        first_fun(funs, name, i),
        first_fun(funs, name, j),
    ensures
        i == j,
{
    if i < j {
        assert(named_other(funs[i], name));
    } else if j < i {
        assert(named_other(funs[j], name));
    }
}

/// The place of the first struct of `v` whose identifier is `name`.
fn find_struct_in(v: &Vec<Struct>, name: &str) -> (r: Option<usize>)
    ensures
        r matches Some(i) ==> first_where(v@, |x: Struct| x.identifier@ == name@, i as int),
        r is None ==> none_where(v@, |x: Struct| x.identifier@ == name@),
{
    let mut i: usize = 0;
    while i < v.len()
        invariant
            i <= v@.len(),
            forall|j: int| 0 <= j < i ==> (#[trigger] v@[j]).identifier@ != name@,
        decreases v@.len() - i,
    {
        if text_eq(v[i].identifier.as_str(), name) {
            return Some(i);
        }
        i = i + 1;
    }
    None
}

/// The place of the first trait of `v` whose identifier is `name`.
fn find_trait_in(v: &Vec<Trait>, name: &str) -> (r: Option<usize>)
    ensures
        r matches Some(i) ==> first_where(v@, |x: Trait| x.identifier@ == name@, i as int),
        r is None ==> none_where(v@, |x: Trait| x.identifier@ == name@),
{
    let mut i: usize = 0;
    while i < v.len()
        invariant
            i <= v@.len(),
            forall|j: int| 0 <= j < i ==> (#[trigger] v@[j]).identifier@ != name@,
        decreases v@.len() - i,
    {
        if text_eq(v[i].identifier.as_str(), name) {
            return Some(i);
        }
        i = i + 1;
    }
    None
}

/// The place of the first enum of `v` whose identifier is `name`.
fn find_enum_in(v: &Vec<Enum>, name: &str) -> (r: Option<usize>)
    ensures
        r matches Some(i) ==> first_where(v@, |x: Enum| x.identifier@ == name@, i as int),
        r is None ==> none_where(v@, |x: Enum| x.identifier@ == name@),
{
    let mut i: usize = 0;
    while i < v.len()
        invariant
            i <= v@.len(),
            forall|j: int| 0 <= j < i ==> (#[trigger] v@[j]).identifier@ != name@,
        decreases v@.len() - i,
    {
        if text_eq(v[i].identifier.as_str(), name) {
            return Some(i);
        }
        i = i + 1;
    }
    None
}

/// The place of the first import of `v` whose alias is `name`.
fn find_import_in(v: &Vec<Import>, name: &str) -> (r: Option<usize>)
    ensures
        r matches Some(i) ==> first_where(v@, |x: Import| x.alias@ == name@, i as int),
        r is None ==> none_where(v@, |x: Import| x.alias@ == name@),
{
    let mut i: usize = 0;
    while i < v.len()
        invariant
            i <= v@.len(),
            forall|j: int| 0 <= j < i ==> (#[trigger] v@[j]).alias@ != name@,
        decreases v@.len() - i,
    {
        if text_eq(v[i].alias.as_str(), name) {
            return Some(i);
        }
        i = i + 1;
    }
    None
}

/// The place of the first function of `v` whose name is `name`.
fn find_bin_fun_in(v: &Vec<BinFunction>, name: &str) -> (r: Option<usize>)
    ensures
        r matches Some(i) ==> first_where(v@, |x: BinFunction| x.name@ == name@, i as int),
        r is None ==> none_where(v@, |x: BinFunction| x.name@ == name@),
{
    let mut i: usize = 0;
    while i < v.len()
        invariant
            i <= v@.len(),
            forall|j: int| 0 <= j < i ==> (#[trigger] v@[j]).name@ != name@,
        decreases v@.len() - i,
    {
        if text_eq(v[i].name.as_str(), name) {
            return Some(i);
        }
        i = i + 1;
    }
    None
}

/// The place of the first user data type of `v` whose name is `name`.
fn find_userdata_in(v: &Vec<UserData>, name: &str) -> (r: Option<usize>)
    ensures
        r matches Some(i) ==> first_where(v@, |x: UserData| x.name@ == name@, i as int),
        r is None ==> none_where(v@, |x: UserData| x.name@ == name@),
{
    let mut i: usize = 0;
    while i < v.len()
        invariant
            i <= v@.len(),
            forall|j: int| 0 <= j < i ==> (#[trigger] v@[j]).name@ != name@,
        decreases v@.len() - i,
    {
        if text_eq(v[i].name.as_str(), name) {
            return Some(i);
        }
        i = i + 1;
    }
    None
}

/// The place of the first struct of `v` whose name is `name`.
fn find_bin_struct_in(v: &Vec<BinStruct>, name: &str) -> (r: Option<usize>)
    ensures
        r matches Some(i) ==> first_where(v@, |x: BinStruct| x.name@ == name@, i as int),
        r is None ==> none_where(v@, |x: BinStruct| x.name@ == name@),
{
    let mut i: usize = 0;
    while i < v.len()
        invariant
            i <= v@.len(),
            forall|j: int| 0 <= j < i ==> (#[trigger] v@[j]).name@ != name@,
        decreases v@.len() - i,
    {
        if text_eq(v[i].name.as_str(), name) {
            return Some(i);
        }
        i = i + 1;
    }
    None
}


/// Whether the function at `p` is found in the binary library `d`, as `f`:
/// a function of the library, else a method of the first struct named by the
/// block that has one so named, else one of the first such user data type.
pub open spec fn found_in_bin(d: BinDictionary, p: InnerPathV, f: BinFunction) -> bool {
    let named = |x: BinFunction| x.name@ == p.ident;
    match p.block {
        None => exists|i: int| first_where(d.functions@, named, i) && f == d.functions@[i],
        Some(b) => {
            ||| exists|s: int, i: int|
                first_where(d.structs@, |x: BinStruct| x.name@ == b && !none_where(x.methods@, named), s)
                    && first_where(d.structs@[s].methods@, named, i) && f == d.structs@[s].methods@[i]
            ||| none_where(d.structs@, |x: BinStruct| x.name@ == b && !none_where(x.methods@, named))
                && exists|s: int, i: int|
                first_where(d.user_data@, |x: UserData| x.name@ == b && !none_where(x.methods@, named), s)
                    && first_where(d.user_data@[s].methods@, named, i) && f == d.user_data@[s].methods@[i]
        },
    }
}

/// Whether no function at `p` is in the binary library `d`.
pub open spec fn missing_in_bin(d: BinDictionary, p: InnerPathV) -> bool {
    let named = |x: BinFunction| x.name@ == p.ident;
    match p.block {
        None => none_where(d.functions@, named),
        Some(b) => none_where(d.structs@, |x: BinStruct| x.name@ == b && !none_where(x.methods@, named))
            && none_where(d.user_data@, |x: UserData| x.name@ == b && !none_where(x.methods@, named)),
    }
}

impl InnerPath {
    /// The function of a binary library at this path.
    pub fn get_bin<'a>(&'a self, objects: &'a Context) -> (r: Result<&'a BinFunction, CodegenError>)
        requires
            objects.wf(),
        ensures
            r matches Ok(f) ==> has_key(objects.1@, self.file@) && found_in_bin(
                value_of(objects.1@, self.file@),
                self@,
                *f,
            ),
            r matches Err(e) ==> (e matches CodegenError::FunctionNotFound(q) && q@ == self@) && (
            !has_key(objects.1@, self.file@) || missing_in_bin(value_of(objects.1@, self.file@), self@)),
    {
        let fi = match find_key(&objects.1, self.file.as_str()) {
            Some(fi) => fi,
            None => {
                return Err(CodegenError::FunctionNotFound(self.copy()));
            },
        };
        proof {
            lemma_value_of(objects.1@, self.file@, fi as int);
        }
        let file = &objects.1[fi].1;
        let ghost named = |x: BinFunction| x.name@ == self.ident@;
        match &self.block {
            Some(b) => {
                let ghost sp = |x: BinStruct| x.name@ == b@ && !none_where(x.methods@, named);
                let ghost up = |x: UserData| x.name@ == b@ && !none_where(x.methods@, named);
                let mut s: usize = 0;
                while s < file.structs.len()
                    invariant
                        s <= file.structs@.len(),
                        self.block == Some(*b),
                        has_key(objects.1@, self.file@),
                        value_of(objects.1@, self.file@) == *file,
                        named == (|x: BinFunction| x.name@ == self.ident@),
                        sp == (|x: BinStruct| x.name@ == b@ && !none_where(x.methods@, named)),
                        forall|t: int| 0 <= t < s ==> !sp(#[trigger] file.structs@[t]),
                    decreases file.structs@.len() - s,
                {
                    if file.structs[s].name == *b {
                        match find_bin_fun_in(&file.structs[s].methods, self.ident.as_str()) {
                            Some(i) => {
                                assert(first_where(file.structs@, sp, s as int));
                                return Ok(&file.structs[s].methods[i]);
                            },
                            None => {},
                        }
                    }
                    s = s + 1;
                }
                let mut u: usize = 0;
                while u < file.user_data.len()
                    invariant
                        u <= file.user_data@.len(),
                        self.block == Some(*b),
                        has_key(objects.1@, self.file@),
                        value_of(objects.1@, self.file@) == *file,
                        named == (|x: BinFunction| x.name@ == self.ident@),
                        sp == (|x: BinStruct| x.name@ == b@ && !none_where(x.methods@, named)),
                        up == (|x: UserData| x.name@ == b@ && !none_where(x.methods@, named)),
                        none_where(file.structs@, sp),
                        forall|t: int| 0 <= t < u ==> !up(#[trigger] file.user_data@[t]),
                    decreases file.user_data@.len() - u,
                {
                    if file.user_data[u].name == *b {
                        match find_bin_fun_in(&file.user_data[u].methods, self.ident.as_str()) {
                            Some(i) => {
                                assert(first_where(file.user_data@, up, u as int));
                                return Ok(&file.user_data[u].methods[i]);
                            },
                            None => {},
                        }
                    }
                    u = u + 1;
                }
                Err(CodegenError::FunctionNotFound(self.copy()))
            },
            None => {
                match find_bin_fun_in(&file.functions, self.ident.as_str()) {
                    Some(i) => Ok(&file.functions[i]),
                    None => Err(CodegenError::FunctionNotFound(self.copy())),
                }
            },
        }
    }
}

/// The path and kind of the first import of the file `file_name` whose alias is `ident`.
pub fn find_import<'a>(objects: &'a Context, ident: &'a str, file_name: &'a str) -> (r: Option<(&'a str, ImportKinds)>)
    requires
        objects.wf(),
    ensures
        r matches Some((path, kind)) ==> has_key(objects.0@, file_name@) && exists|i: int|
            first_where(value_of(objects.0@, file_name@).imports@, |x: Import| x.alias@ == ident@, i)
                && path@ == value_of(objects.0@, file_name@).imports@[i].path@ && kind == value_of(
                objects.0@,
                file_name@,
            ).imports@[i].kind,
        r is None ==> !has_key(objects.0@, file_name@) || none_where(
            value_of(objects.0@, file_name@).imports@,
            |x: Import| x.alias@ == ident@,
        ),
{
    match find_key(&objects.0, file_name) {
        Some(fi) => {
            proof {
                lemma_value_of(objects.0@, file_name@, fi as int);
            }
            let imports = &objects.0[fi].1.imports;
            match find_import_in(imports, ident) {
                Some(i) => Some((imports[i].path.as_str(), imports[i].kind)),
                None => None,
            }
        },
        None => None,
    }
}

/// The path of a function of a source file named `name`, of a file.
pub open spec fn rd_path(file: Seq<char>, name: Seq<char>) -> InnerPathV {
    InnerPathV { file, block: None, ident: name, kind: ImportKinds::Rd }
}

/// The path of a function of a binary library named `name`, of a file.
pub open spec fn dll_path(file: Seq<char>, name: Seq<char>) -> InnerPathV {
    InnerPathV { file, block: None, ident: name, kind: ImportKinds::Dll }
}

/// Whether the source file `file` has a function named `name`.
pub open spec fn rd_has_fun(objects: Context, file: Seq<char>, name: Seq<char>) -> bool {
    has_key(objects.0@, file) && exists|i: int| first_fun(value_of(objects.0@, file).functions@, name, i)
}

/// Whether the binary library `file` has a function named `name`.
pub open spec fn dll_has_fun(objects: Context, file: Seq<char>, name: Seq<char>) -> bool {
    has_key(objects.1@, file) && !none_where(
        value_of(objects.1@, file).functions@,
        |x: BinFunction| x.name@ == name,
    )
}

/// The function named `ident` of the file `file_name`: one of the source
/// file of that name, else one of the binary library of that name.
pub fn find_fun(objects: &Context, ident: &str, file_name: &str) -> (r: Option<FunctionKind>)
    requires
        objects.wf(),
        has_key(objects.0@, file_name@) ==> scan_ok(value_of(objects.0@, file_name@).functions@, ident@),
    ensures
        rd_has_fun(*objects, file_name@, ident@) ==> (r matches Some(FunctionKind::Fun(p)) && p@
            == rd_path(file_name@, ident@)),
        !rd_has_fun(*objects, file_name@, ident@) && dll_has_fun(*objects, file_name@, ident@) ==> (
        r matches Some(FunctionKind::Binary(p)) && p@ == dll_path(file_name@, ident@)),
        !rd_has_fun(*objects, file_name@, ident@) && !dll_has_fun(*objects, file_name@, ident@)
            ==> r is None,
{
    match find_key(&objects.0, file_name) {
        Some(fi) => {
            proof {
                lemma_value_of(objects.0@, file_name@, fi as int);
            }
            match scan_funs(&objects.0[fi].1.functions, ident) {
                Some(_) => {
                    return Some(
                        FunctionKind::Fun(
                            InnerPath {
                                file: file_name.to_owned(),
                                block: None,
                                ident: ident.to_owned(),
                                kind: ImportKinds::Rd,
                            },
                        ),
                    );
                },
                None => {
                    proof {
                        assert forall|i: int| !first_fun(objects.0@[fi as int].1.functions@, ident@, i) by {
                            if 0 <= i < objects.0@[fi as int].1.functions@.len() {
                                assert(named_other(objects.0@[fi as int].1.functions@[i], ident@));
                            }
                        }
                    }
                },
            }
        },
        None => {},
    }
    match find_key(&objects.1, file_name) {
        Some(bi) => {
            proof {
                lemma_value_of(objects.1@, file_name@, bi as int);
            }
            match find_bin_fun_in(&objects.1[bi].1.functions, ident) {
                Some(_) => Some(
                    FunctionKind::Binary(
                        InnerPath {
                            file: file_name.to_owned(),
                            block: None,
                            ident: ident.to_owned(),
                            kind: ImportKinds::Dll,
                        },
                    ),
                ),
                None => None,
            }
        },
        None => None,
    }
}

/// The first struct named `ident` of the source file `file_name`, with the file's name.
pub fn find_struct<'a>(objects: &'a Context, ident: &'a str, file_name: &'a str) -> (r: Option<(&'a str, &'a Struct)>)
    requires
        objects.wf(),
    ensures
        r matches Some((f, st)) ==> f == file_name && has_key(objects.0@, file_name@) && exists|i: int|
            first_where(value_of(objects.0@, file_name@).structs@, |x: Struct| x.identifier@ == ident@, i)
                && *st == value_of(objects.0@, file_name@).structs@[i],
        r is None ==> !has_key(objects.0@, file_name@) || none_where(
            value_of(objects.0@, file_name@).structs@,
            |x: Struct| x.identifier@ == ident@,
        ),
{
    match find_key(&objects.0, file_name) {
        Some(fi) => {
            proof {
                lemma_value_of(objects.0@, file_name@, fi as int);
            }
            match find_struct_in(&objects.0[fi].1.structs, ident) {
                Some(i) => Some((file_name, &objects.0[fi].1.structs[i])),
                None => None,
            }
        },
        None => None,
    }
}

/// The first user data type named `ident` of the binary library `file_name`,
/// with the file's name.
pub fn find_userdata<'a>(objects: &'a Context, ident: &'a str, file_name: &'a str) -> (r: Option<(&'a str, &'a UserData)>)
    requires
        objects.wf(),
    ensures
        r matches Some((f, ud)) ==> f == file_name && has_key(objects.1@, file_name@) && exists|i: int|
            first_where(value_of(objects.1@, file_name@).user_data@, |x: UserData| x.name@ == ident@, i)
                && *ud == value_of(objects.1@, file_name@).user_data@[i],
        r is None ==> !has_key(objects.1@, file_name@) || none_where(
            value_of(objects.1@, file_name@).user_data@,
            |x: UserData| x.name@ == ident@,
        ),
{
    match find_key(&objects.1, file_name) {
        Some(fi) => {
            proof {
                lemma_value_of(objects.1@, file_name@, fi as int);
            }
            match find_userdata_in(&objects.1[fi].1.user_data, ident) {
                Some(i) => Some((file_name, &objects.1[fi].1.user_data[i])),
                None => None,
            }
        },
        None => None,
    }
}

/// The name of the core library.
pub open spec fn core_file() -> Seq<char> {
    seq!['#', 'c', 'o', 'r', 'e']
}

/// The method `method` of a value of a primitive type: the function of the
/// core library named by the type's first name followed by the method's.
pub fn find_primitive_method(objects: &mut Context, kind: &Kind, method: &str, line: &Line) -> (r: Result<InnerPath, CodegenError>)
    requires
        kind.body matches TypeBody::Type { main, kind: KindType::Primitive, .. } ==> main@.len() > 0,
    ensures
        *final(objects) == *old(objects),
        kind.body matches TypeBody::Type { main, kind: KindType::Primitive, .. } ==> (r matches Ok(p)
            && p@ == dll_path(core_file(), main@[0]@ + method@)),
        !(kind.body matches TypeBody::Type { kind: KindType::Primitive, .. }) ==> (r matches Err(
            CodegenError::CannotCallType(k, l),
        ) && k@ == kind@ && l == *line),
{
    proof {
        reveal_strlit("#core");
        assert("#core"@ =~= core_file());
    }
    match &kind.body {
        TypeBody::Type { main, kind: kind_kind, .. } => {
            match kind_kind {
                KindType::Primitive => {
                    let name = main[0].clone().concat(method);
                    Ok(InnerPath { file: String::from_str("#core"), block: None, ident: name, kind: ImportKinds::Dll })
                },
                _ => Err(CodegenError::CannotCallType(kind.copy(), *line)),
            }
        },
        _ => Err(CodegenError::CannotCallType(kind.copy(), *line)),
    }
}

/// The method `method` of an array: the function of the core library named
/// `arr` followed by the method's name.
pub fn find_array_method(objects: &mut Context, method: &str, line: &Line) -> (r: Result<InnerPath, CodegenError>)
    ensures
        *final(objects) == *old(objects),
        r matches Ok(p) && p@ == dll_path(core_file(), seq!['a', 'r', 'r'] + method@),
{
    proof {
        reveal_strlit("#core");
        reveal_strlit("arr");
        assert("#core"@ =~= core_file());
        assert("arr"@ =~= seq!['a', 'r', 'r']);
    }
    let name = String::from_str("arr").concat(method);
    Ok(InnerPath { file: String::from_str("#core"), block: None, ident: name, kind: ImportKinds::Dll })
}


/// The type of a function of a source file.
pub open spec fn fun_kind(f: Function, file: Seq<char>) -> KindV {
    KindV {
        body: TypeBodyV::Function {
            args: args_view(f.args@),
            return_type: Box::new(
                match f.return_type {
                    Some(k) => Some(k@),
                    None => None,
                },
            ),
            refs: 0,
        },
        line: f.line,
        file: Some(file),
    }
}

/// The type of a function of a binary library.
pub open spec fn bin_fun_kind(f: BinFunction, file: Seq<char>, line: Line) -> KindV {
    KindV {
        body: TypeBodyV::Function {
            args: bargs_view(f.args@),
            return_type: Box::new(Some(f.return_type@)),
            refs: 0,
        },
        line,
        file: Some(file),
    }
}

/// The type named `name`, of the kind `kind`, declared at `line` of `file`.
pub open spec fn named_kind(name: Seq<char>, kind: KindType, line: Line, file: Seq<char>) -> KindV {
    KindV {
        body: TypeBodyV::Type { refs: 0, main: seq![name], generics: seq![], nullable: false, kind },
        line,
        file: Some(file),
    }
}

/// The type of what the path `p` names: in a source file, a function, else a
/// struct, a trait or an enum; in a binary library, a function, else a user
/// data type; none where nothing is so named.
pub open spec fn kind_at(ctx: Context, p: InnerPathV, line: Line) -> Option<KindV> {
    if has_key(ctx.0@, p.file) {
        let d = value_of(ctx.0@, p.file);
        let sp = |x: Struct| x.identifier@ == p.ident;
        let tp = |x: Trait| x.identifier@ == p.ident;
        let ep = |x: Enum| x.identifier@ == p.ident;
        if exists|i: int| first_fun(d.functions@, p.ident, i) {
            let i = choose|i: int| first_fun(d.functions@, p.ident, i);
            Some(fun_kind(d.functions@[i], p.file))
        } else if !none_where(d.structs@, sp) {
            let i = choose|i: int| first_where(d.structs@, sp, i);
            Some(named_kind(p.ident, KindType::Struct, d.structs@[i].line, p.file))
        } else if !none_where(d.traits@, tp) {
            let i = choose|i: int| first_where(d.traits@, tp, i);
            Some(named_kind(p.ident, KindType::Trait, d.traits@[i].line, p.file))
        } else if !none_where(d.enums@, ep) {
            let i = choose|i: int| first_where(d.enums@, ep, i);
            Some(named_kind(p.ident, KindType::Enum, d.enums@[i].line, p.file))
        } else {
            None
        }
    } else if has_key(ctx.1@, p.file) {
        let d = value_of(ctx.1@, p.file);
        let fp = |x: BinFunction| x.name@ == p.ident;
        let up = |x: UserData| x.name@ == p.ident;
        if !none_where(d.functions@, fp) {
            let i = choose|i: int| first_where(d.functions@, fp, i);
            Some(bin_fun_kind(d.functions@[i], p.file, line))
        } else if !none_where(d.user_data@, up) {
            let i = choose|i: int| first_where(d.user_data@, up, i);
            Some(named_kind(p.ident, KindType::UserData, d.user_data@[i].line, p.file))
        } else {
            None
        }
    } else {
        None
    }
}

/// Where `p` accepts an item, the first accepted place is the chosen one.
proof fn lemma_choose_first<T>(s: Seq<T>, p: spec_fn(T) -> bool, i: int)
    requires
        first_where(s, p, i),
    ensures
        !none_where(s, p),
        (choose|j: int| first_where(s, p, j)) == i,
{
    let c = choose|j: int| first_where(s, p, j);
    assert(first_where(s, p, c));
    lemma_first_unique(s, p, c, i);
}

/// The type of what the path `location` names.
pub fn get_kind(objects: &Context, location: &InnerPath, line: &Line) -> (r: Result<Kind, CodegenError>)
    requires
        objects.wf(),
        has_key(objects.0@, location.file@) ==> scan_ok(
            value_of(objects.0@, location.file@).functions@,
            location.ident@,
        ),
    ensures
        r matches Ok(k) ==> kind_at(*objects, location@, *line) == Some(k@),
        r matches Err(e) ==> kind_at(*objects, location@, *line) is None && (e matches CodegenError::KindNotFound(
            s,
            l,
        ) && s@ == location.ident@ && l == *line),
{
    let ghost p = location@;
    match find_key(&objects.0, location.file.as_str()) {
        Some(fi) => {
            proof {
                lemma_value_of(objects.0@, location.file@, fi as int);
            }
            let file = &objects.0[fi].1;
            let ghost sp = |x: Struct| x.identifier@ == p.ident;
            let ghost tp = |x: Trait| x.identifier@ == p.ident;
            let ghost ep = |x: Enum| x.identifier@ == p.ident;
            match scan_funs(&file.functions, location.ident.as_str()) {
                Some(i) => {
                    proof {
                        let c = choose|j: int| first_fun(file.functions@, p.ident, j);
                        lemma_first_fun_unique(file.functions@, p.ident, c, i as int);
                    }
                    return Ok(Kind::from_fun(&file.functions[i], location.file.clone()));
                },
                None => {
                    proof {
                        assert forall|i: int| !first_fun(file.functions@, p.ident, i) by {
                            if 0 <= i < file.functions@.len() {
                                assert(named_other(file.functions@[i], p.ident));
                            }
                        }
                    }
                },
            }
            match find_struct_in(&file.structs, location.ident.as_str()) {
                Some(i) => {
                    proof {
                        lemma_choose_first(file.structs@, sp, i as int);
                    }
                    return Ok(
                        Kind::from_struct(
                            file.structs[i].identifier.clone(),
                            location.file.clone(),
                            file.structs[i].line,
                        ),
                    );
                },
                None => {},
            }
            match find_trait_in(&file.traits, location.ident.as_str()) {
                Some(i) => {
                    proof {
                        lemma_choose_first(file.traits@, tp, i as int);
                    }
                    return Ok(Kind::from_trait(&file.traits[i], location.file.clone()));
                },
                None => {},
            }
            match find_enum_in(&file.enums, location.ident.as_str()) {
                Some(i) => {
                    proof {
                        lemma_choose_first(file.enums@, ep, i as int);
                    }
                    return Ok(Kind::from_enum(&file.enums[i], location.file.clone()));
                },
                None => {},
            }
            return Err(CodegenError::KindNotFound(location.ident.clone(), *line));
        },
        None => {},
    }
    let bi = match find_key(&objects.1, location.file.as_str()) {
        Some(bi) => bi,
        None => {
            return Err(CodegenError::KindNotFound(location.ident.clone(), *line));
        },
    };
    proof {
        lemma_value_of(objects.1@, location.file@, bi as int);
    }
    let file = &objects.1[bi].1;
    let ghost fp = |x: BinFunction| x.name@ == p.ident;
    let ghost up = |x: UserData| x.name@ == p.ident;
    match find_bin_fun_in(&file.functions, location.ident.as_str()) {
        Some(i) => {
            proof {
                lemma_choose_first(file.functions@, fp, i as int);
            }
            return Ok(Kind::bfrom_fun(&file.functions[i], location.file.clone(), *line));
        },
        None => {},
    }
    match find_userdata_in(&file.user_data, location.ident.as_str()) {
        Some(i) => {
            proof {
                lemma_choose_first(file.user_data@, up, i as int);
            }
            Ok(Kind::from_userdata(file.user_data[i].name.clone(), location.file.clone(), file.user_data[i].line))
        },
        None => Err(CodegenError::KindNotFound(location.ident.clone(), *line)),
    }
}


/// Whether `after` is `before` with function `i` of file `fi` replaced by `f`.
pub open spec fn top_fun_replaced(before: Context, after: Context, fi: int, i: int, f: Function) -> bool {
    &&& after.1 == before.1
    &&& after.0@.len() == before.0@.len()
    &&& forall|t: int| 0 <= t < before.0@.len() && t != fi ==> #[trigger] after.0@[t] == before.0@[t]
    &&& after.0@[fi].0 == before.0@[fi].0
    &&& after.0@[fi].1 == (Dictionary { functions: after.0@[fi].1.functions, ..before.0@[fi].1 })
    &&& after.0@[fi].1.functions@ == before.0@[fi].1.functions@.update(i, f)
}

/// Whether `after` is `before` with function `i` of struct `s` of file `fi`
/// replaced by `f`.
pub open spec fn struct_fun_replaced(before: Context, after: Context, fi: int, s: int, i: int, f: Function) -> bool {
    &&& after.1 == before.1
    &&& after.0@.len() == before.0@.len()
    &&& forall|t: int| 0 <= t < before.0@.len() && t != fi ==> #[trigger] after.0@[t] == before.0@[t]
    &&& after.0@[fi].0 == before.0@[fi].0
    &&& after.0@[fi].1 == (Dictionary { structs: after.0@[fi].1.structs, ..before.0@[fi].1 })
    &&& after.0@[fi].1.structs@.len() == before.0@[fi].1.structs@.len()
    &&& forall|u: int|
        0 <= u < before.0@[fi].1.structs@.len() && u != s ==> #[trigger] after.0@[fi].1.structs@[u]
            == before.0@[fi].1.structs@[u]
    &&& after.0@[fi].1.structs@[s] == (Struct {
        functions: after.0@[fi].1.structs@[s].functions,
        ..before.0@[fi].1.structs@[s]
    })
    &&& after.0@[fi].1.structs@[s].functions@ == before.0@[fi].1.structs@[s].functions@.update(i, f)
}

/// Whether `f` is named `a` or `b`.
pub open spec fn fun_named_either(f: Function, a: Seq<char>, b: Seq<char>) -> bool {
    f.identifier matches Some(id) && (id@ == a || id@ == b)
}

/// Whether `f` has a name, and it is neither `a` nor `b`.
pub open spec fn named_neither(f: Function, a: Seq<char>, b: Seq<char>) -> bool {
    f.identifier matches Some(id) && id@ != a && id@ != b
}

/// Whether `i` is the place of the first function of `funs` named `a` or
/// `b`, every one before it having a name.
pub open spec fn first_fun_either(funs: Seq<Function>, a: Seq<char>, b: Seq<char>, i: int) -> bool {
    &&& 0 <= i < funs.len()
    &&& fun_named_either(funs[i], a, b)
    &&& forall|j: int| 0 <= j < i ==> named_neither(#[trigger] funs[j], a, b)
}

/// Whether every function of `funs` has a name, neither `a` nor `b`.
pub open spec fn no_fun_either(funs: Seq<Function>, a: Seq<char>, b: Seq<char>) -> bool {
    forall|j: int| 0 <= j < funs.len() ==> named_neither(#[trigger] funs[j], a, b)
}

/// Whether function `i` of struct `s` is the first one named `a` or `b`
/// among the structs named `b`, taken in order.
pub open spec fn struct_found_either(structs: Seq<Struct>, a: Seq<char>, b: Seq<char>, s: int, i: int) -> bool {
    &&& 0 <= s < structs.len()
    &&& structs[s].identifier@ == b
    &&& first_fun_either(structs[s].functions@, a, b, i)
    &&& forall|t: int|
        0 <= t < s && (#[trigger] structs[t]).identifier@ == b ==> no_fun_either(structs[t].functions@, a, b)
}

/// Whether no struct named `b` has a function named `a` or `b`, and all of
/// their functions have names.
pub open spec fn struct_none_either(structs: Seq<Struct>, a: Seq<char>, b: Seq<char>) -> bool {
    forall|t: int|
        0 <= t < structs.len() && (#[trigger] structs[t]).identifier@ == b ==> no_fun_either(structs[t].functions@, a, b)
}

/// Whether the search of `get_mut` for the function at `p` in `d` meets no
/// function without a name.
pub open spec fn get_mut_ok(d: Dictionary, p: InnerPathV) -> bool {
    match p.block {
        None => scan_ok(d.functions@, p.ident),
        Some(b) => (exists|s: int, i: int| struct_found_either(d.structs@, p.ident, b, s, i))
            || struct_none_either(d.structs@, p.ident, b),
    }
}

/// Whether function `i` of file `fi` (of its struct `s`, where `s` is not
/// negative) is the one that `get_mut` finds at `p`.
pub open spec fn found_mut(ctx: Context, p: InnerPathV, fi: int, s: int, i: int) -> bool {
    &&& key_at(ctx.0@, p.file, fi)
    &&& match p.block {
        None => s == -1 && first_fun(ctx.0@[fi].1.functions@, p.ident, i),
        Some(b) => struct_found_either(ctx.0@[fi].1.structs@, p.ident, b, s, i),
    }
}

/// Function `i` of file `fi`, of its struct `s` where `s` is not negative.
pub open spec fn fun_at(ctx: Context, fi: int, s: int, i: int) -> Function {
    if s < 0 {
        ctx.0@[fi].1.functions@[i]
    } else {
        ctx.0@[fi].1.structs@[s].functions@[i]
    }
}

/// Whether `after` is `before` with that function replaced by `f`.
pub open spec fn fun_replaced(before: Context, after: Context, fi: int, s: int, i: int, f: Function) -> bool {
    if s < 0 {
        top_fun_replaced(before, after, fi, i, f)
    } else {
        struct_fun_replaced(before, after, fi, s, i, f)
    }
}

/// Whether no function is at `p` for `get_mut`.
pub open spec fn missing_mut(d: Dictionary, p: InnerPathV) -> bool {
    match p.block {
        None => no_fun(d.functions@, p.ident),
        Some(b) => struct_none_either(d.structs@, p.ident, b),
    }
}

/// The first function of `funs` named `a` or `b`.
fn scan_funs_either(funs: &Vec<Function>, a: &str, b: &str) -> (r: Option<usize>)
    requires
        (exists|i: int| first_fun_either(funs@, a@, b@, i)) || no_fun_either(funs@, a@, b@),
    ensures
        r matches Some(i) ==> first_fun_either(funs@, a@, b@, i as int),
        r is None ==> no_fun_either(funs@, a@, b@),
{
    let mut i: usize = 0;
    while i < funs.len()
        invariant
            i <= funs@.len(),
            (exists|i: int| first_fun_either(funs@, a@, b@, i)) || no_fun_either(funs@, a@, b@),
            forall|j: int| 0 <= j < i ==> named_neither(#[trigger] funs@[j], a@, b@),
        decreases funs@.len() - i,
    {
        match &funs[i].identifier {
            Some(id) => {
                if text_eq(id.as_str(), a) || text_eq(id.as_str(), b) {
                    return Some(i);
                }
            },
            None => {
                proof {
                    assert(!named_neither(funs@[i as int], a@, b@));
                    assert(!no_fun_either(funs@, a@, b@));
                    let w = choose|w: int| first_fun_either(funs@, a@, b@, w);
                    assert(w > i ==> named_neither(funs@[i as int], a@, b@));
                }
                assert(false);
            },
        }
        i = i + 1;
    }
    None
}

/// Function `i` of file `fi`, to be changed.
fn top_fun_mut<'a>(objects: &'a mut Context, fi: usize, i: usize) -> (r: &'a mut Function)
    requires
        fi < old(objects).0@.len(),
        i < old(objects).0@[fi as int].1.functions@.len(),
    ensures
        *r == fun_at(*old(objects), fi as int, -1, i as int),
        fun_replaced(*old(objects), *final(objects), fi as int, -1, i as int, *final(r)),
{
    &mut objects.0[fi].1.functions[i]
}

/// Function `i` of struct `s` of file `fi`, to be changed.
fn struct_fun_mut<'a>(objects: &'a mut Context, fi: usize, s: usize, i: usize) -> (r: &'a mut Function)
    requires
        fi < old(objects).0@.len(),
        s < old(objects).0@[fi as int].1.structs@.len(),
        i < old(objects).0@[fi as int].1.structs@[s as int].functions@.len(),
    ensures
        *r == fun_at(*old(objects), fi as int, s as int, i as int),
        fun_replaced(*old(objects), *final(objects), fi as int, s as int, i as int, *final(r)),
{
    &mut objects.0[fi].1.structs[s].functions[i]
}

impl InnerPath {
    /// The function of a source file at this path, to be changed: a function
    /// of the file, or the first method named like the path or like its block
    /// of the first struct named by the block that has one.
    pub fn get_mut<'a>(&'a self, objects: &'a mut Context) -> (r: Result<&'a mut Function, CodegenError>)
        requires
            old(objects).wf(),
            has_key(old(objects).0@, self.file@) ==> get_mut_ok(value_of(old(objects).0@, self.file@), self@),
        ensures
            r matches Ok(f) ==> exists|fi: int, s: int, i: int|
                found_mut(*old(objects), self@, fi, s, i) && *f == fun_at(*old(objects), fi, s, i)
                    && fun_replaced(*old(objects), *final(objects), fi, s, i, *final(f)),
            r matches Err(e) ==> (e matches CodegenError::FunctionNotFound(q) && q@ == self@)
                && *final(objects) == *old(objects) && (!has_key(old(objects).0@, self.file@)
                || missing_mut(value_of(old(objects).0@, self.file@), self@)),
    {
        let fi = match find_key(&objects.0, self.file.as_str()) {
            Some(fi) => fi,
            None => {
                return Err(CodegenError::FunctionNotFound(self.copy()));
            },
        };
        proof {
            lemma_value_of(objects.0@, self.file@, fi as int);
        }
        match &self.block {
            Some(b) => {
                let ghost file = objects.0@[fi as int].1;
                let mut s: usize = 0;
                while s < objects.0[fi].1.structs.len()
                    invariant
                        fi < objects.0@.len(),
                        *objects == *old(objects),
                        old(objects).wf(),
                        key_at(objects.0@, self.file@, fi as int),
                        value_of(objects.0@, self.file@) == file,
                        file == objects.0@[fi as int].1,
                        s <= file.structs@.len(),
                        self.block == Some(*b),
                        get_mut_ok(file, self@),
                        forall|t: int|
                            0 <= t < s && (#[trigger] file.structs@[t]).identifier@ == b@ ==> no_fun_either(
                                file.structs@[t].functions@,
                                self.ident@,
                                b@,
                            ),
                    decreases file.structs@.len() - s,
                {
                    if objects.0[fi].1.structs[s].identifier == *b {
                        let ghost funs = file.structs@[s as int].functions@;
                        proof {
                            if !((exists|i: int| first_fun_either(funs, self.ident@, b@, i)) || no_fun_either(funs, self.ident@, b@)) {
                                if exists|s2: int, i2: int| struct_found_either(file.structs@, self.ident@, b@, s2, i2) {
                                    let (s2, i2) = choose|s2: int, i2: int|
                                        struct_found_either(file.structs@, self.ident@, b@, s2, i2);
                                    if s2 < s {
                                        assert(no_fun_either(file.structs@[s2].functions@, self.ident@, b@));
                                        assert(named_neither(file.structs@[s2].functions@[i2], self.ident@, b@));
                                    } else if s2 > s {
                                        assert(no_fun_either(funs, self.ident@, b@));
                                    } else {
                                        assert(first_fun_either(funs, self.ident@, b@, i2));
                                    }
                                } else {
                                    assert(no_fun_either(funs, self.ident@, b@));
                                }
                            }
                        }
                        match scan_funs_either(&objects.0[fi].1.structs[s].functions, self.ident.as_str(), b.as_str()) {
                            Some(i) => {
                                assert(struct_found_either(file.structs@, self.ident@, b@, s as int, i as int));
                                assert(found_mut(*objects, self@, fi as int, s as int, i as int));
                                return Ok(struct_fun_mut(objects, fi, s, i));
                            },
                            None => {},
                        }
                    }
                    s = s + 1;
                }
                Err(CodegenError::FunctionNotFound(self.copy()))
            },
            None => {
                match scan_funs(&objects.0[fi].1.functions, self.ident.as_str()) {
                    Some(i) => {
                        assert(found_mut(*objects, self@, fi as int, -1, i as int));
                        Ok(top_fun_mut(objects, fi, i))
                    },
                    None => Err(CodegenError::FunctionNotFound(self.copy())),
                }
            },
        }
    }
}


/// Where a function may be: file `0`, struct `1` (none where it is
/// negative), place `2`.
pub open spec fn valid_loc(ctx: Context, fi: int, s: int, i: int) -> bool {
    &&& 0 <= fi < ctx.0@.len()
    &&& if s < 0 {
        s == -1 && 0 <= i < ctx.0@[fi].1.functions@.len()
    } else {
        s < ctx.0@[fi].1.structs@.len() && 0 <= i < ctx.0@[fi].1.structs@[s].functions@.len()
    }
}

/// Whether `b` is `a` with nothing but the ids of functions changed.
pub open spec fn same_shape(a: Context, b: Context) -> bool {
    &&& b.1 == a.1
    &&& b.0@.len() == a.0@.len()
    &&& forall|fi: int|
        0 <= fi < a.0@.len() ==> {
            let (da, db) = (a.0@[fi].1, (#[trigger] b.0@[fi]).1);
            &&& b.0@[fi].0 == a.0@[fi].0
            &&& db == (Dictionary { functions: db.functions, structs: db.structs, ..da })
            &&& db.functions@.len() == da.functions@.len()
            &&& (forall|i: int|
                0 <= i < da.functions@.len() ==> #[trigger] db.functions@[i] == (Function {
                    id: db.functions@[i].id,
                    ..da.functions@[i]
                }))
            &&& db.structs@.len() == da.structs@.len()
            &&& (forall|s: int|
                0 <= s < da.structs@.len() ==> {
                    let (sa, sb) = (da.structs@[s], #[trigger] db.structs@[s]);
                    &&& sb == (Struct { functions: sb.functions, ..sa })
                    &&& sb.functions@.len() == sa.functions@.len()
                    &&& forall|i: int|
                        0 <= i < sa.functions@.len() ==> #[trigger] sb.functions@[i] == (Function {
                            id: sb.functions@[i].id,
                            ..sa.functions@[i]
                        })
                })
        }
}

/// Whether every function of every source file has a name.
pub open spec fn all_named(ctx: Context) -> bool {
    forall|fi: int, s: int, i: int| #[trigger] valid_loc(ctx, fi, s, i) ==> fun_at(ctx, fi, s, i).identifier is Some
}

/// The paths of the functions `funs` of the file `name`, but those named `main`.
pub open spec fn top_paths(name: Seq<char>, funs: Seq<Function>) -> Seq<InnerPathV>
    decreases funs.len(),
{
    if funs.len() == 0 {
        seq![]
    } else {
        let rest = top_paths(name, funs.drop_last());
        let id = funs.last().identifier->0@;
        if id == seq!['m', 'a', 'i', 'n'] {
            rest
        } else {
            rest.push(InnerPathV { file: name, block: None, ident: id, kind: ImportKinds::Rd })
        }
    }
}

/// The paths of the methods `funs` of the struct `sname` of the file `name`.
pub open spec fn method_paths(name: Seq<char>, sname: Seq<char>, funs: Seq<Function>) -> Seq<InnerPathV>
    decreases funs.len(),
{
    if funs.len() == 0 {
        seq![]
    } else {
        method_paths(name, sname, funs.drop_last()).push(
            InnerPathV { file: name, block: Some(sname), ident: funs.last().identifier->0@, kind: ImportKinds::Rd },
        )
    }
}

/// The paths of the methods of the structs `structs` of the file `name`.
pub open spec fn struct_paths(name: Seq<char>, structs: Seq<Struct>) -> Seq<InnerPathV>
    decreases structs.len(),
{
    if structs.len() == 0 {
        seq![]
    } else {
        struct_paths(name, structs.drop_last()) + method_paths(
            name,
            structs.last().identifier@,
            structs.last().functions@,
        )
    }
}

/// The paths of the functions of the source files `files`, file by file:
/// first the functions (but `main`), then the methods of the structs.
pub open spec fn file_paths(files: Seq<(String, Dictionary)>) -> Seq<InnerPathV>
    decreases files.len(),
{
    if files.len() == 0 {
        seq![]
    } else {
        file_paths(files.drop_last()) + top_paths(files.last().0@, files.last().1.functions@)
            + struct_paths(files.last().0@, files.last().1.structs@)
    }
}

/// The paths to which ids are given: the main function first, then the
/// functions of every file.
pub open spec fn all_fun_paths(ctx: Context) -> Seq<InnerPathV> {
    seq![InnerPathV { file: main_file(), block: None, ident: main_fun(), kind: ImportKinds::Rd }] + file_paths(ctx.0@)
}

/// The last place among `ps` of a path at which the function at the given
/// place is found, or -1.
pub open spec fn last_hit(ctx: Context, ps: Seq<InnerPathV>, fi: int, s: int, i: int) -> int
    decreases ps.len(),
{
    if ps.len() == 0 {
        -1
    } else if found_mut(ctx, ps.last(), fi, s, i) {
        ps.len() - 1
    } else {
        last_hit(ctx, ps.drop_last(), fi, s, i)
    }
}

/// Whether each function of `after` has, as its id, the last place among
/// `ps` of a path at which it is found in `before`, or its id of `before`
/// where there is none.
pub open spec fn ids_given(before: Context, after: Context, ps: Seq<InnerPathV>) -> bool {
    forall|fi: int, s: int, i: int|
        #[trigger] valid_loc(before, fi, s, i) ==> fun_at(after, fi, s, i).id as int == (if last_hit(
            before,
            ps,
            fi,
            s,
            i,
        ) >= 0 {
            last_hit(before, ps, fi, s, i)
        } else {
            fun_at(before, fi, s, i).id as int
        })
}


/// Whether `m` is the first place that has `p`.
pub open spec fn first_true(p: spec_fn(int) -> bool, m: int) -> bool {
    0 <= m && p(m) && forall|k: int| 0 <= k < m ==> !#[trigger] p(k)
}

/// Where some place of `0..n` has `p`, a first one has.
proof fn lemma_first_index(p: spec_fn(int) -> bool, w: int)
    requires
        0 <= w,
        p(w),
    ensures
        exists|m: int| m <= w && #[trigger] first_true(p, m),
    decreases w,
{
    if exists|k: int| 0 <= k < w && #[trigger] p(k) {
        let k = choose|k: int| 0 <= k < w && #[trigger] p(k);
        lemma_first_index(p, k);
    } else {
        assert(first_true(p, w));
    }
}

/// A function is found only where one is.
proof fn lemma_found_valid(ctx: Context, p: InnerPathV, fi: int, s: int, i: int)
    requires
        found_mut(ctx, p, fi, s, i),
    ensures
        valid_loc(ctx, fi, s, i),
{
}

/// A path leads to one function at most.
proof fn lemma_found_unique(ctx: Context, p: InnerPathV, fi: int, s: int, i: int, fj: int, t: int, j: int)
    requires
        ctx.wf(),
        found_mut(ctx, p, fi, s, i),
        found_mut(ctx, p, fj, t, j),
    ensures
        fi == fj && s == t && i == j,
{
    if fi != fj {
        if fi < fj {
            assert(ctx.0@[fi].0@ != ctx.0@[fj].0@);
        } else {
            assert(ctx.0@[fj].0@ != ctx.0@[fi].0@);
        }
    }
    let d = ctx.0@[fi].1;
    match p.block {
        None => {
            lemma_first_fun_unique(d.functions@, p.ident, i, j);
        },
        Some(b) => {
            if s < t {
                assert(no_fun_either(d.structs@[s].functions@, p.ident, b));
                assert(named_neither(d.structs@[s].functions@[i], p.ident, b));
            } else if t < s {
                assert(no_fun_either(d.structs@[t].functions@, p.ident, b));
                assert(named_neither(d.structs@[t].functions@[j], p.ident, b));
            } else if i < j {
                assert(named_neither(d.structs@[s].functions@[i], p.ident, b));
            } else if j < i {
                assert(named_neither(d.structs@[s].functions@[j], p.ident, b));
            }
        },
    }
}

/// Whether two lists of functions have the same names, place by place.
pub open spec fn same_names(fa: Seq<Function>, fb: Seq<Function>) -> bool {
    fa.len() == fb.len() && forall|j: int| 0 <= j < fa.len() ==> (#[trigger] fa[j]).identifier == fb[j].identifier
}

/// The searches through functions depend on their names alone.
proof fn lemma_same_names(fa: Seq<Function>, fb: Seq<Function>, a: Seq<char>, b: Seq<char>, i: int)
    requires
        same_names(fa, fb),
    ensures
        first_fun(fa, a, i) == first_fun(fb, a, i),
        first_fun_either(fa, a, b, i) == first_fun_either(fb, a, b, i),
        no_fun_either(fa, a, b) == no_fun_either(fb, a, b),
{
    assert forall|j: int| 0 <= j < fa.len() implies (named_other(#[trigger] fa[j], a) == named_other(fb[j], a))
        && (named_neither(fa[j], a, b) == named_neither(fb[j], a, b)) && (fun_named(fa[j], a) == fun_named(fb[j], a))
        && (fun_named_either(fa[j], a, b) == fun_named_either(fb[j], a, b)) by {
        assert(fa[j].identifier == fb[j].identifier);
    }
    if first_fun(fa, a, i) {
        assert forall|j: int| 0 <= j < i implies named_other(#[trigger] fb[j], a) by {
            assert(named_other(fa[j], a));
        }
    }
    if first_fun(fb, a, i) {
        assert forall|j: int| 0 <= j < i implies named_other(#[trigger] fa[j], a) by {
            assert(named_other(fb[j], a));
        }
    }
    if first_fun_either(fa, a, b, i) {
        assert forall|j: int| 0 <= j < i implies named_neither(#[trigger] fb[j], a, b) by {
            assert(named_neither(fa[j], a, b));
        }
    }
    if first_fun_either(fb, a, b, i) {
        assert forall|j: int| 0 <= j < i implies named_neither(#[trigger] fa[j], a, b) by {
            assert(named_neither(fb[j], a, b));
        }
    }
    if no_fun_either(fa, a, b) {
        assert forall|j: int| 0 <= j < fb.len() implies named_neither(#[trigger] fb[j], a, b) by {
            assert(named_neither(fa[j], a, b));
        }
    }
    if no_fun_either(fb, a, b) {
        assert forall|j: int| 0 <= j < fa.len() implies named_neither(#[trigger] fa[j], a, b) by {
            assert(named_neither(fb[j], a, b));
        }
    }
}

/// Functions that differ in their ids alone have the same names.
proof fn lemma_ids_only(fa: Seq<Function>, fb: Seq<Function>)
    requires
        fa.len() == fb.len(),
        forall|i: int| 0 <= i < fa.len() ==> #[trigger] fb[i] == (Function { id: fb[i].id, ..fa[i] }),
    ensures
        same_names(fa, fb),
{
    assert forall|j: int| 0 <= j < fa.len() implies (#[trigger] fa[j]).identifier == fb[j].identifier by {
        assert(fb[j] == (Function { id: fb[j].id, ..fa[j] }));
    }
}

/// Where only ids differ, a path leads to the same place.
proof fn lemma_found_same_shape(a: Context, b: Context, p: InnerPathV, fi: int, s: int, i: int)
    requires
        same_shape(a, b),
    ensures
        found_mut(a, p, fi, s, i) == found_mut(b, p, fi, s, i),
{
    if 0 <= fi < a.0@.len() {
        let (da, db) = (a.0@[fi].1, b.0@[fi].1);
        assert(b.0@[fi].0 == a.0@[fi].0);
        assert(key_at(a.0@, p.file, fi) == key_at(b.0@, p.file, fi));
        match p.block {
            None => {
                lemma_ids_only(da.functions@, db.functions@);
                lemma_same_names(da.functions@, db.functions@, p.ident, p.ident, i);
            },
            Some(bl) => {
                assert forall|t: int| 0 <= t < da.structs@.len() implies (#[trigger] db.structs@[t]).identifier
                    == da.structs@[t].identifier && same_names(da.structs@[t].functions@, db.structs@[t].functions@) by {
                    let (sa, sb) = (da.structs@[t], db.structs@[t]);
                    assert(sb == (Struct { functions: sb.functions, ..sa }));
                    lemma_ids_only(sa.functions@, sb.functions@);
                }
                assert forall|t: int| 0 <= t < da.structs@.len() implies no_fun_either(
                    (#[trigger] db.structs@[t]).functions@,
                    p.ident,
                    bl,
                ) == no_fun_either(da.structs@[t].functions@, p.ident, bl) by {
                    lemma_same_names(da.structs@[t].functions@, db.structs@[t].functions@, p.ident, bl, 0);
                }
                if 0 <= s < da.structs@.len() {
                    lemma_same_names(da.structs@[s].functions@, db.structs@[s].functions@, p.ident, bl, i);
                    if struct_found_either(da.structs@, p.ident, bl, s, i) {
                        assert forall|t: int| 0 <= t < s && (#[trigger] db.structs@[t]).identifier@ == bl implies no_fun_either(
                            db.structs@[t].functions@,
                            p.ident,
                            bl,
                        ) by {
                            assert(da.structs@[t].identifier == db.structs@[t].identifier);
                            assert(no_fun_either(da.structs@[t].functions@, p.ident, bl));
                        }
                    }
                    if struct_found_either(db.structs@, p.ident, bl, s, i) {
                        assert forall|t: int| 0 <= t < s && (#[trigger] da.structs@[t]).identifier@ == bl implies no_fun_either(
                            da.structs@[t].functions@,
                            p.ident,
                            bl,
                        ) by {
                            assert(da.structs@[t].identifier == db.structs@[t].identifier);
                            assert(no_fun_either(db.structs@[t].functions@, p.ident, bl));
                        }
                    }
                    assert(struct_found_either(da.structs@, p.ident, bl, s, i) == struct_found_either(
                        db.structs@,
                        p.ident,
                        bl,
                        s,
                        i,
                    ));
                }
            },
        }
    }
}

/// Changing one function's id changes nothing else.
proof fn lemma_replaced(before: Context, after: Context, fi: int, s: int, i: int, f: Function)
    requires
        valid_loc(before, fi, s, i),
        fun_replaced(before, after, fi, s, i, f),
        f == (Function { id: f.id, ..fun_at(before, fi, s, i) }),
    ensures
        same_shape(before, after),
        fun_at(after, fi, s, i) == f,
        forall|gj: int, t: int, j: int|
            #[trigger] valid_loc(before, gj, t, j) && !(gj == fi && t == s && j == i) ==> fun_at(after, gj, t, j)
                == fun_at(before, gj, t, j),
{
    assert forall|gj: int| 0 <= gj < before.0@.len() implies {
        let (da, db) = (before.0@[gj].1, (#[trigger] after.0@[gj]).1);
        &&& after.0@[gj].0 == before.0@[gj].0
        &&& db == (Dictionary { functions: db.functions, structs: db.structs, ..da })
        &&& db.functions@.len() == da.functions@.len()
        &&& (forall|k: int|
            0 <= k < da.functions@.len() ==> #[trigger] db.functions@[k] == (Function {
                id: db.functions@[k].id,
                ..da.functions@[k]
            }))
        &&& db.structs@.len() == da.structs@.len()
        &&& (forall|u: int|
            0 <= u < da.structs@.len() ==> {
                let (sa, sb) = (da.structs@[u], #[trigger] db.structs@[u]);
                &&& sb == (Struct { functions: sb.functions, ..sa })
                &&& sb.functions@.len() == sa.functions@.len()
                &&& forall|k: int|
                    0 <= k < sa.functions@.len() ==> #[trigger] sb.functions@[k] == (Function {
                        id: sb.functions@[k].id,
                        ..sa.functions@[k]
                    })
            })
    } by {
        if gj == fi {
            let (da, db) = (before.0@[gj].1, after.0@[gj].1);
            if s < 0 {
                assert forall|k: int| 0 <= k < da.functions@.len() implies #[trigger] db.functions@[k] == (Function {
                    id: db.functions@[k].id,
                    ..da.functions@[k]
                }) by {
                    if k == i {
                        assert(db.functions@[k] == f);
                    }
                }
            } else {
                assert forall|u: int| 0 <= u < da.structs@.len() implies {
                    let (sa, sb) = (da.structs@[u], #[trigger] db.structs@[u]);
                    &&& sb == (Struct { functions: sb.functions, ..sa })
                    &&& sb.functions@.len() == sa.functions@.len()
                    &&& forall|k: int|
                        0 <= k < sa.functions@.len() ==> #[trigger] sb.functions@[k] == (Function {
                            id: sb.functions@[k].id,
                            ..sa.functions@[k]
                        })
                } by {
                    if u == s {
                        let (sa, sb) = (da.structs@[u], db.structs@[u]);
                        assert forall|k: int| 0 <= k < sa.functions@.len() implies #[trigger] sb.functions@[k] == (Function {
                            id: sb.functions@[k].id,
                            ..sa.functions@[k]
                        }) by {
                            if k == i {
                                assert(sb.functions@[k] == f);
                            }
                        }
                    }
                }
            }
        }
    }
}

/// Changes of ids alone add up to changes of ids alone.
proof fn lemma_shape_trans(a: Context, b: Context, c: Context)
    requires
        same_shape(a, b),
        same_shape(b, c),
    ensures
        same_shape(a, c),
{
    assert forall|fi: int| 0 <= fi < a.0@.len() implies {
        let (da, dc) = (a.0@[fi].1, (#[trigger] c.0@[fi]).1);
        &&& c.0@[fi].0 == a.0@[fi].0
        &&& dc == (Dictionary { functions: dc.functions, structs: dc.structs, ..da })
        &&& dc.functions@.len() == da.functions@.len()
        &&& (forall|i: int|
            0 <= i < da.functions@.len() ==> #[trigger] dc.functions@[i] == (Function {
                id: dc.functions@[i].id,
                ..da.functions@[i]
            }))
        &&& dc.structs@.len() == da.structs@.len()
        &&& (forall|s: int|
            0 <= s < da.structs@.len() ==> {
                let (sa, sc) = (da.structs@[s], #[trigger] dc.structs@[s]);
                &&& sc == (Struct { functions: sc.functions, ..sa })
                &&& sc.functions@.len() == sa.functions@.len()
                &&& forall|i: int|
                    0 <= i < sa.functions@.len() ==> #[trigger] sc.functions@[i] == (Function {
                        id: sc.functions@[i].id,
                        ..sa.functions@[i]
                    })
            })
    } by {
        let (da, db, dc) = (a.0@[fi].1, b.0@[fi].1, c.0@[fi].1);
        assert forall|i: int| 0 <= i < da.functions@.len() implies #[trigger] dc.functions@[i] == (Function {
            id: dc.functions@[i].id,
            ..da.functions@[i]
        }) by {
            assert(db.functions@[i] == (Function { id: db.functions@[i].id, ..da.functions@[i] }));
            assert(dc.functions@[i] == (Function { id: dc.functions@[i].id, ..db.functions@[i] }));
        }
        assert forall|s: int| 0 <= s < da.structs@.len() implies {
            let (sa, sc) = (da.structs@[s], #[trigger] dc.structs@[s]);
            &&& sc == (Struct { functions: sc.functions, ..sa })
            &&& sc.functions@.len() == sa.functions@.len()
            &&& forall|i: int|
                0 <= i < sa.functions@.len() ==> #[trigger] sc.functions@[i] == (Function {
                    id: sc.functions@[i].id,
                    ..sa.functions@[i]
                })
        } by {
            let (sa, sb, sc) = (da.structs@[s], db.structs@[s], dc.structs@[s]);
            assert(sb == (Struct { functions: sb.functions, ..sa }));
            assert(sc == (Struct { functions: sc.functions, ..sb }));
            assert forall|i: int| 0 <= i < sa.functions@.len() implies #[trigger] sc.functions@[i] == (Function {
                id: sc.functions@[i].id,
                ..sa.functions@[i]
            }) by {
                assert(sb.functions@[i] == (Function { id: sb.functions@[i].id, ..sa.functions@[i] }));
                assert(sc.functions@[i] == (Function { id: sc.functions@[i].id, ..sb.functions@[i] }));
            }
        }
    }
}

/// Changes of ids keep the names of files apart.
proof fn lemma_shape_wf(a: Context, b: Context)
    requires
        same_shape(a, b),
        a.wf(),
    ensures
        b.wf(),
{
    assert forall|i: int, j: int| 0 <= i < j < b.0@.len() implies (#[trigger] b.0@[i]).0@ != (#[trigger] b.0@[j]).0@ by {
        assert(b.0@[i].0 == a.0@[i].0);
        assert(b.0@[j].0 == a.0@[j].0);
        assert(a.0@[i].0@ != a.0@[j].0@);
    }
}

/// Where a path leads to a function, `get_mut` can search for it.
proof fn lemma_found_ok(ctx: Context, p: InnerPathV, fi: int, s: int, i: int)
    requires
        ctx.wf(),
        found_mut(ctx, p, fi, s, i),
    ensures
        has_key(ctx.0@, p.file),
        get_mut_ok(value_of(ctx.0@, p.file), p),
{
    lemma_value_of(ctx.0@, p.file, fi);
}

/// Gives the id `id` to the function at the path `p`.
fn give_id(objects: &mut Context, p: &InnerPath, id: usize, Ghost(start): Ghost<Context>, Ghost(prev): Ghost<Seq<InnerPathV>>)
    requires
        start.wf(),
        same_shape(start, *old(objects)),
        ids_given(start, *old(objects), prev),
        id == prev.len(),
        exists|fi: int, s: int, i: int| found_mut(start, p@, fi, s, i),
    ensures
        same_shape(start, *final(objects)),
        ids_given(start, *final(objects), prev.push(p@)),
{
    let ghost cur = *objects;
    proof {
        lemma_shape_wf(start, cur);
        let (fi, s, i) = choose|fi: int, s: int, i: int| found_mut(start, p@, fi, s, i);
        lemma_found_same_shape(start, cur, p@, fi, s, i);
        lemma_found_ok(cur, p@, fi, s, i);
    }
    match p.get_mut(objects) {
        Ok(f) => {
            f.id = id;
        },
        Err(_) => {
            assert(false);
        },
    }
    proof {
        let fin = *objects;
        let (fi, s, i) = choose|fi: int, s: int, i: int|
            found_mut(cur, p@, fi, s, i) && fun_replaced(cur, fin, fi, s, i, Function { id: id, ..fun_at(cur, fi, s, i) });
        lemma_found_valid(cur, p@, fi, s, i);
        lemma_replaced(cur, fin, fi, s, i, Function { id: id, ..fun_at(cur, fi, s, i) });
        lemma_shape_trans(start, cur, fin);
        lemma_found_same_shape(start, cur, p@, fi, s, i);
        let ps = prev.push(p@);
        assert(ps.drop_last() =~= prev);
        assert forall|gj: int, t: int, j: int| #[trigger] valid_loc(start, gj, t, j) implies fun_at(fin, gj, t, j).id as int
            == (if last_hit(start, ps, gj, t, j) >= 0 {
            last_hit(start, ps, gj, t, j)
        } else {
            fun_at(start, gj, t, j).id as int
        }) by {
            if found_mut(start, p@, gj, t, j) {
                lemma_found_unique(start, p@, gj, t, j, fi, s, i);
            } else {
                assert(valid_loc(cur, gj, t, j));
                assert(!(gj == fi && t == s && j == i));
            }
        }
    }
}


/// A context differs from itself in nothing.
proof fn lemma_shape_refl(a: Context)
    ensures
        same_shape(a, a),
{
    assert forall|fi: int| 0 <= fi < a.0@.len() implies {
        let (da, db) = (a.0@[fi].1, (#[trigger] a.0@[fi]).1);
        &&& a.0@[fi].0 == a.0@[fi].0
        &&& db == (Dictionary { functions: db.functions, structs: db.structs, ..da })
        &&& db.functions@.len() == da.functions@.len()
        &&& (forall|i: int|
            0 <= i < da.functions@.len() ==> #[trigger] db.functions@[i] == (Function {
                id: db.functions@[i].id,
                ..da.functions@[i]
            }))
        &&& db.structs@.len() == da.structs@.len()
        &&& (forall|s: int|
            0 <= s < da.structs@.len() ==> {
                let (sa, sb) = (da.structs@[s], #[trigger] db.structs@[s]);
                &&& sb == (Struct { functions: sb.functions, ..sa })
                &&& sb.functions@.len() == sa.functions@.len()
                &&& forall|i: int|
                    0 <= i < sa.functions@.len() ==> #[trigger] sb.functions@[i] == (Function {
                        id: sb.functions@[i].id,
                        ..sa.functions@[i]
                    })
            })
    } by {}
}

/// The function `j` of file `f`, when not named `main`, is found at its path.
proof fn lemma_top_found(ctx: Context, f: int, j: int)
    requires
        ctx.wf(),
        all_named(ctx),
        valid_loc(ctx, f, -1, j),
    ensures
        exists|fi: int, s: int, i: int| found_mut(
            ctx,
            InnerPathV {
                file: ctx.0@[f].0@,
                block: None,
                ident: ctx.0@[f].1.functions@[j].identifier->0@,
                kind: ImportKinds::Rd,
            },
            fi,
            s,
            i,
        ),
{
    let funs = ctx.0@[f].1.functions@;
    let x = funs[j].identifier->0@;
    let pr = |k: int| 0 <= k < funs.len() && fun_named(funs[k], x);
    assert(valid_loc(ctx, f, -1, j));
    lemma_first_index(pr, j);
    let m = choose|m: int| m <= j && #[trigger] first_true(pr, m);
    assert forall|k: int| 0 <= k < m implies named_other(#[trigger] funs[k], x) by {
        assert(!pr(k));
        assert(valid_loc(ctx, f, -1, k));
    }
    let p = InnerPathV { file: ctx.0@[f].0@, block: None, ident: x, kind: ImportKinds::Rd };
    assert(found_mut(ctx, p, f, -1, m));
}

/// The method `j` of struct `s` of file `f` is found at its path.
proof fn lemma_method_found(ctx: Context, f: int, s: int, j: int)
    requires
        ctx.wf(),
        all_named(ctx),
        valid_loc(ctx, f, s, j),
        s >= 0,
    ensures
        exists|fi: int, t: int, i: int| found_mut(
            ctx,
            InnerPathV {
                file: ctx.0@[f].0@,
                block: Some(ctx.0@[f].1.structs@[s].identifier@),
                ident: ctx.0@[f].1.structs@[s].functions@[j].identifier->0@,
                kind: ImportKinds::Rd,
            },
            fi,
            t,
            i,
        ),
{
    let structs = ctx.0@[f].1.structs@;
    let b = structs[s].identifier@;
    let x = structs[s].functions@[j].identifier->0@;
    assert(valid_loc(ctx, f, s, j));
    let ps = |t: int|
        0 <= t < structs.len() && structs[t].identifier@ == b && exists|k: int|
            0 <= k < structs[t].functions@.len() && fun_named_either(#[trigger] structs[t].functions@[k], x, b);
    assert(fun_named_either(structs[s].functions@[j], x, b));
    lemma_first_index(ps, s);
    let t0 = choose|t0: int| t0 <= s && #[trigger] first_true(ps, t0);
    let funs = structs[t0].functions@;
    let pf = |k: int| 0 <= k < funs.len() && fun_named_either(funs[k], x, b);
    let w = choose|k: int| 0 <= k < funs.len() && fun_named_either(#[trigger] funs[k], x, b);
    assert(pf(w));
    lemma_first_index(pf, w);
    let k0 = choose|k0: int| k0 <= w && #[trigger] first_true(pf, k0);
    assert forall|k: int| 0 <= k < k0 implies named_neither(#[trigger] funs[k], x, b) by {
        assert(!pf(k));
        assert(valid_loc(ctx, f, t0, k));
    }
    assert forall|t: int| 0 <= t < t0 && (#[trigger] structs[t]).identifier@ == b implies no_fun_either(
        structs[t].functions@,
        x,
        b,
    ) by {
        assert(!ps(t));
        assert forall|k: int| 0 <= k < structs[t].functions@.len() implies named_neither(
            #[trigger] structs[t].functions@[k],
            x,
            b,
        ) by {
            assert(valid_loc(ctx, f, t, k));
        }
    }
    let p = InnerPathV {
        file: ctx.0@[f].0@,
        block: Some(b),
        ident: x,
        kind: ImportKinds::Rd,
    };
    assert(struct_found_either(structs, x, b, t0, k0));
    assert(found_mut(ctx, p, f, t0, k0));
}

/// Gives each function of the source files an id: the main function `0`,
/// then the functions of each file but those named `main`, then the methods
/// of its structs, in order; each gets the place of its path among the
/// paths returned, and a function reached by several paths the last.
pub fn gen_all_fun_ids(objects: &mut Context) -> (r: Result<Vec<InnerPath>, CodegenError>)
    requires
        old(objects).wf(),
        all_named(*old(objects)),
        old(objects).has_main(),
    ensures
        r matches Ok(paths) && paths_view(paths@) == all_fun_paths(*old(objects)) && same_shape(
            *old(objects),
            *final(objects),
        ) && ids_given(*old(objects), *final(objects), paths_view(paths@)),
{
    let ghost start = *objects;
    let ghost mainp = InnerPathV { file: main_file(), block: None, ident: main_fun(), kind: ImportKinds::Rd };
    let mut paths: Vec<InnerPath> = Vec::new();
    let main = InnerPath::main();
    proof {
        lemma_shape_refl(start);
        let fi = choose|fi: int| key_at(start.0@, main_file(), fi);
        lemma_value_of(start.0@, main_file(), fi);
        let i = choose|i: int| crate::context::first_named_fun(start.0@[fi].1.functions@, main_fun(), i);
        assert(found_mut(start, main@, fi, -1, i));
        assert(ids_given(start, start, Seq::<InnerPathV>::empty()));
    }
    paths.push(main.copy());
    give_id(objects, &main, 0, Ghost(start), Ghost(Seq::<InnerPathV>::empty()));
    assert(paths_view(paths@) =~= seq![mainp]);
    assert(Seq::<InnerPathV>::empty().push(main@) =~= paths_view(paths@));
    let mut id: usize = paths.len();
    let nfiles = objects.0.len();
    let mut f: usize = 0;
    assert(start.0@.take(0) =~= Seq::<(String, Dictionary)>::empty());
    assert(paths_view(paths@) =~= seq![mainp] + file_paths(start.0@.take(0)));
    while f < nfiles
        invariant
            start.wf(),
            all_named(start),
            nfiles == start.0@.len(),
            f <= nfiles,
            mainp == (InnerPathV { file: main_file(), block: None, ident: main_fun(), kind: ImportKinds::Rd }),
            same_shape(start, *objects),
            ids_given(start, *objects, paths_view(paths@)),
            id == paths@.len(),
            paths_view(paths@) == seq![mainp] + file_paths(start.0@.take(f as int)),
        decreases nfiles - f,
    {
        let ghost name = start.0@[f as int].0@;
        let ghost funs = start.0@[f as int].1.functions@;
        let ghost structs = start.0@[f as int].1.structs@;
        let ghost before_file = paths_view(paths@);
        assert(objects.0@[f as int].0 == start.0@[f as int].0);
        let nfun = objects.0[f].1.functions.len();
        let mut j: usize = 0;
        assert(funs.take(0) =~= Seq::<Function>::empty());
        assert(paths_view(paths@) =~= before_file + top_paths(name, funs.take(0)));
        while j < nfun
            invariant
                start.wf(),
                all_named(start),
                nfiles == start.0@.len(),
                f < nfiles,
                name == start.0@[f as int].0@,
                funs == start.0@[f as int].1.functions@,
                nfun == funs.len(),
                j <= nfun,
                same_shape(start, *objects),
                ids_given(start, *objects, paths_view(paths@)),
                id == paths@.len(),
                paths_view(paths@) == before_file + top_paths(name, funs.take(j as int)),
            decreases nfun - j,
        {
            assert(objects.0@[f as int].0 == start.0@[f as int].0);
            assert(objects.0@[f as int].1.functions@[j as int] == (Function {
                id: objects.0@[f as int].1.functions@[j as int].id,
                ..funs[j as int]
            }));
            assert(valid_loc(start, f as int, -1, j as int));
            assert(funs.take(j + 1).drop_last() =~= funs.take(j as int));
            let ident = match &objects.0[f].1.functions[j].identifier {
                Some(x) => x.clone(),
                None => {
                    assert(false);
                    String::new()
                },
            };
            let path = InnerPath {
                file: objects.0[f].0.clone(),
                block: None,
                ident,
                kind: ImportKinds::Rd,
            };
            if !text_eq(path.ident.as_str(), "main") {
                proof {
                    lemma_top_found(start, f as int, j as int);
                }
                let ghost prev = paths_view(paths@);
                paths.push(path.copy());
                assert(paths_view(paths@) =~= prev.push(path@));
                give_id(objects, &path, id, Ghost(start), Ghost(prev));
                id = paths.len();
            }
            proof {
                reveal_strlit("main");
                assert("main"@ =~= seq!['m', 'a', 'i', 'n']);
            }
            j = j + 1;
            assert(paths_view(paths@) =~= before_file + top_paths(name, funs.take(j as int)));
        }
        assert(funs.take(nfun as int) =~= funs);
        let ghost after_top = paths_view(paths@);
        let nst = objects.0[f].1.structs.len();
        let mut s: usize = 0;
        assert(structs.take(0) =~= Seq::<Struct>::empty());
        assert(paths_view(paths@) =~= after_top + struct_paths(name, structs.take(0)));
        while s < nst
            invariant
                start.wf(),
                all_named(start),
                nfiles == start.0@.len(),
                f < nfiles,
                name == start.0@[f as int].0@,
                structs == start.0@[f as int].1.structs@,
                nst == structs.len(),
                s <= nst,
                same_shape(start, *objects),
                ids_given(start, *objects, paths_view(paths@)),
                id == paths@.len(),
                paths_view(paths@) == after_top + struct_paths(name, structs.take(s as int)),
            decreases nst - s,
        {
            let ghost sfuns = structs[s as int].functions@;
            let ghost sname = structs[s as int].identifier@;
            let ghost before_struct = paths_view(paths@);
            assert(objects.0@[f as int].1.structs@[s as int] == (Struct {
                functions: objects.0@[f as int].1.structs@[s as int].functions,
                ..structs[s as int]
            }));
            let nm = objects.0[f].1.structs[s].functions.len();
            let mut j: usize = 0;
            assert(sfuns.take(0) =~= Seq::<Function>::empty());
            assert(paths_view(paths@) =~= before_struct + method_paths(name, sname, sfuns.take(0)));
            while j < nm
                invariant
                    start.wf(),
                    all_named(start),
                    nfiles == start.0@.len(),
                    f < nfiles,
                    name == start.0@[f as int].0@,
                    structs == start.0@[f as int].1.structs@,
                    s < structs.len(),
                    sfuns == structs[s as int].functions@,
                    sname == structs[s as int].identifier@,
                    nm == sfuns.len(),
                    j <= nm,
                    same_shape(start, *objects),
                    ids_given(start, *objects, paths_view(paths@)),
                    id == paths@.len(),
                    paths_view(paths@) == before_struct + method_paths(name, sname, sfuns.take(j as int)),
                decreases nm - j,
            {
                assert(objects.0@[f as int].0 == start.0@[f as int].0);
                assert(objects.0@[f as int].1.structs@[s as int] == (Struct {
                    functions: objects.0@[f as int].1.structs@[s as int].functions,
                    ..structs[s as int]
                }));
                assert(objects.0@[f as int].1.structs@[s as int].functions@[j as int] == (Function {
                    id: objects.0@[f as int].1.structs@[s as int].functions@[j as int].id,
                    ..sfuns[j as int]
                }));
                assert(valid_loc(start, f as int, s as int, j as int));
                assert(sfuns.take(j + 1).drop_last() =~= sfuns.take(j as int));
                let ident = match &objects.0[f].1.structs[s].functions[j].identifier {
                    Some(x) => x.clone(),
                    None => {
                        assert(false);
                        String::new()
                    },
                };
                let path = InnerPath {
                    file: objects.0[f].0.clone(),
                    block: Some(objects.0[f].1.structs[s].identifier.clone()),
                    ident,
                    kind: ImportKinds::Rd,
                };
                proof {
                    lemma_method_found(start, f as int, s as int, j as int);
                }
                let ghost prev = paths_view(paths@);
                paths.push(path.copy());
                assert(paths_view(paths@) =~= prev.push(path@));
                give_id(objects, &path, id, Ghost(start), Ghost(prev));
                id = paths.len();
                j = j + 1;
                assert(paths_view(paths@) =~= before_struct + method_paths(name, sname, sfuns.take(j as int)));
            }
            assert(sfuns.take(nm as int) =~= sfuns);
            assert(structs.take(s + 1).drop_last() =~= structs.take(s as int));
            s = s + 1;
            assert(paths_view(paths@) =~= after_top + struct_paths(name, structs.take(s as int)));
        }
        assert(structs.take(nst as int) =~= structs);
        assert(start.0@.take(f + 1).drop_last() =~= start.0@.take(f as int));
        f = f + 1;
        assert(paths_view(paths@) =~= seq![mainp] + file_paths(start.0@.take(f as int)));
    }
    assert(start.0@.take(nfiles as int) =~= start.0@);
    Ok(paths)
}


/// Whether `get` and `get_mut` search `d` for `p` alike: the path has no
/// block, or its name is its block, or no struct named by the block has a
/// function named like the block.
pub open spec fn same_search(d: Dictionary, p: InnerPathV) -> bool {
    p.block matches Some(b) ==> (p.ident == b || forall|t: int, j: int|
        0 <= t < d.structs@.len() && d.structs@[t].identifier@ == b && 0 <= j
            < d.structs@[t].functions@.len() ==> !fun_named(#[trigger] d.structs@[t].functions@[j], b))
}

/// Where `get` and `get_mut` search alike, they agree: one can search
/// exactly where the other can, one finds nothing exactly where the other
/// does, and a method is the one `get` finds exactly where it is the one
/// `get_mut` finds (a function without a block is found by both as the
/// first of the file so named).
pub proof fn law_get_mut_agrees(d: Dictionary, p: InnerPathV)
    requires
        same_search(d, p),
    ensures
        get_ok(d, p) <==> get_mut_ok(d, p),
        missing_in(d, p) <==> missing_mut(d, p),
        p.block matches Some(b) ==> forall|s: int, i: int|
            struct_found(d.structs@, b, p.ident, s, i) <==> #[trigger] struct_found_either(
                d.structs@,
                p.ident,
                b,
                s,
                i,
            ),
{
    if let Some(b) = p.block {
        let st = d.structs@;
        let a = p.ident;
        assert forall|t: int, j: int|
            0 <= t < st.len() && st[t].identifier@ == b && 0 <= j < st[t].functions@.len() implies (
            named_neither(#[trigger] st[t].functions@[j], a, b) <==> named_other(st[t].functions@[j], a))
            && (fun_named_either(st[t].functions@[j], a, b) <==> fun_named(st[t].functions@[j], a)) by {
            if a != b {
                assert(!fun_named(st[t].functions@[j], b));
            }
        }
        assert forall|t: int|
            0 <= t < st.len() && st[t].identifier@ == b implies (no_fun(st[t].functions@, a) <==> no_fun_either(
            #[trigger] st[t].functions@,
            a,
            b,
        )) by {
            let fs = st[t].functions@;
            if no_fun(fs, a) {
                assert forall|j: int| 0 <= j < fs.len() implies named_neither(#[trigger] fs[j], a, b) by {
                    assert(named_other(fs[j], a));
                }
            }
            if no_fun_either(fs, a, b) {
                assert forall|j: int| 0 <= j < fs.len() implies named_other(#[trigger] fs[j], a) by {
                    assert(named_neither(fs[j], a, b));
                }
            }
        }
        assert forall|s: int, i: int|
            struct_found(st, b, a, s, i) <==> #[trigger] struct_found_either(st, a, b, s, i) by {
            if 0 <= s < st.len() && st[s].identifier@ == b {
                let fs = st[s].functions@;
                if first_fun(fs, a, i) {
                    assert forall|j: int| 0 <= j < i implies named_neither(#[trigger] fs[j], a, b) by {
                        assert(named_other(fs[j], a));
                    }
                    assert(fun_named(fs[i], a));
                }
                if first_fun_either(fs, a, b, i) {
                    assert forall|j: int| 0 <= j < i implies named_other(#[trigger] fs[j], a) by {
                        assert(named_neither(fs[j], a, b));
                    }
                    assert(fun_named_either(fs[i], a, b));
                }
                assert forall|t: int| 0 <= t < s && (#[trigger] st[t]).identifier@ == b implies (no_fun(
                    st[t].functions@,
                    a,
                ) <==> no_fun_either(st[t].functions@, a, b)) by {
                    assert(no_fun(st[t].functions@, a) <==> no_fun_either(st[t].functions@, a, b));
                }
            }
        }
        assert(struct_none(st, b, a) <==> struct_none_either(st, a, b)) by {
            assert forall|t: int| 0 <= t < st.len() && (#[trigger] st[t]).identifier@ == b implies (no_fun(
                st[t].functions@,
                a,
            ) <==> no_fun_either(st[t].functions@, a, b)) by {
                assert(no_fun(st[t].functions@, a) <==> no_fun_either(st[t].functions@, a, b));
            }
        }
        assert((exists|s: int, i: int| struct_found(st, b, a, s, i)) <==> (exists|s: int, i: int|
            struct_found_either(st, a, b, s, i))) by {
            if exists|s: int, i: int| struct_found(st, b, a, s, i) {
                let (s, i) = choose|s: int, i: int| struct_found(st, b, a, s, i);
                assert(struct_found_either(st, a, b, s, i));
            }
            if exists|s: int, i: int| struct_found_either(st, a, b, s, i) {
                let (s, i) = choose|s: int, i: int| struct_found_either(st, a, b, s, i);
                assert(struct_found(st, b, a, s, i));
            }
        }
    }
}

} // verus!
