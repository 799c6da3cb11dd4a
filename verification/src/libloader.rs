//! The interface of a binary library, as its registration text declares it:
//! functions with the place of each argument, structs, user data types,
//! enums, constants and traits.
use vstd::prelude::*;
use crate::codegen::CompoundField;
use crate::lexer::{text_eq, Line};
use crate::types::{ErrType, GenericDecl, Kind, Overload};
use crate::config::{parse_part, std_parse_usize};
use crate::lexer::Tokens;
use crate::tree_reader::{has_val, step_inside_val, val};
use crate::tree_walker::Node;

verus! {

/// A register of the virtual machine.
#[derive(Debug, Clone, Copy, PartialEq, Eq, Structural)]
pub enum Registers {
    G1,
    G2,
    G3,
    M1,
    M2,
    Args,
    Ptr,
    Ret,
    CodePtr,
}

/// Where a value lives: at a place on the stack, or in a register.
#[derive(Debug, Clone, Copy, PartialEq, Eq, Structural)]
pub enum MemoryTypes {
    Stack(usize),
    Register(Registers),
}

/// The place `n` slots further on the stack from `m` (the slot taken as an
/// `i64`, the sum back as a `usize`); a register stays as it is.
pub open spec fn mem_add(m: MemoryTypes, n: i64) -> MemoryTypes {
    match m {
        MemoryTypes::Stack(num) => MemoryTypes::Stack(((num as i64) + n) as usize),
        MemoryTypes::Register(reg) => MemoryTypes::Register(reg),
    }
}

/// Moving `a` slots and then `b` slots is moving `a + b` slots, where the
/// place after the first move is a slot (at least 0, and a `usize` that is
/// an `i64`) and no sum leaves an `i64`.
pub proof fn law_add_composes(m: MemoryTypes, a: i64, b: i64)
    requires
        i64::MIN <= a + b <= i64::MAX,
        m matches MemoryTypes::Stack(num) ==> 0 <= (num as i64) + a <= i64::MAX && (num as i64) + a <= usize::MAX
            && i64::MIN <= (num as i64) + a + b <= i64::MAX,
    ensures
        mem_add(mem_add(m, a), b) == mem_add(m, (a + b) as i64),
{
    if let MemoryTypes::Stack(num) = m {
        let v: int = (num as i64) + a;
        let u: usize = v as usize;
        assert(u == v);
        let w: i64 = u as i64;
        assert(w == v);
        assert(((a + b) as i64) == a + b);
    }
}

impl MemoryTypes {
    /// The place `n` slots further on the stack; a register stays as it is.
    pub fn add(&self, n: i64) -> (r: MemoryTypes)
        requires
            (*self matches MemoryTypes::Stack(num) ==> i64::MIN <= (num as i64) + n <= i64::MAX),
        ensures
            r == mem_add(*self, n),
    {
        match self {
            MemoryTypes::Stack(num) => {
                let a: i64 = #[verifier::truncate] (*num as i64);
                let s: i64 = a + n;
                MemoryTypes::Stack(#[verifier::truncate] (s as usize))
            },
            MemoryTypes::Register(reg) => MemoryTypes::Register(*reg),
        }
    }
}

/// Whether the character `c` is `t` once an ASCII capital letter is made small.
pub open spec fn same_letter(c: char, t: char) -> bool {
    c == t || ('a' <= t <= 'z' && (c as u32) + 32 == (t as u32))
}

/// Whether `s` reads as the lowercase text `t` when ASCII case is ignored.
pub open spec fn eq_ignore_case(s: Seq<char>, t: Seq<char>) -> bool {
    s.len() == t.len() && forall|i: int| 0 <= i < s.len() ==> same_letter(#[trigger] s[i], t[i])
}

/// The register whose name `s` is, ASCII case ignored.
pub open spec fn register_named(s: Seq<char>) -> Option<Registers> {
    if eq_ignore_case(s, seq!['g', '1']) {
        Some(Registers::G1)
    } else if eq_ignore_case(s, seq!['g', '2']) {
        Some(Registers::G2)
    } else if eq_ignore_case(s, seq!['g', '3']) {
        Some(Registers::G3)
    } else if eq_ignore_case(s, seq!['m', '1']) {
        Some(Registers::M1)
    } else if eq_ignore_case(s, seq!['m', '2']) {
        Some(Registers::M2)
    } else if eq_ignore_case(s, seq!['a', 'r', 'g', 's']) {
        Some(Registers::Args)
    } else if eq_ignore_case(s, seq!['p', 't', 'r']) {
        Some(Registers::Ptr)
    } else if eq_ignore_case(s, seq!['r', 'e', 't']) {
        Some(Registers::Ret)
    } else if eq_ignore_case(s, seq!['c', 'p', 't', 'r']) {
        Some(Registers::CodePtr)
    } else {
        None
    }
}

/// Whether `s` reads as the lowercase text `t` when ASCII case is ignored.
fn text_eq_ignore_case(s: &str, t: &str) -> (r: bool)
    ensures
        r == eq_ignore_case(s@, t@),
{
    let n = s.unicode_len();
    if n != t.unicode_len() {
        return false;
    }
    let mut i: usize = 0;
    while i < n
        invariant
            n == s@.len() == t@.len(),
            i <= n,
            forall|j: int| 0 <= j < i ==> same_letter(#[trigger] s@[j], t@[j]),
        decreases n - i,
    {
        let c = s.get_char(i);
        let d = t.get_char(i);
        let same = c == d || ('a' <= d && d <= 'z' && (c as u32) + 32 == (d as u32));
        if !same {
            assert(!same_letter(s@[i as int], t@[i as int]));
            return false;
        }
        i = i + 1;
    }
    true
}

/// The name of each register, in small letters.
pub open spec fn register_name(r: Registers) -> Seq<char> {
    match r {
        Registers::G1 => seq!['g', '1'],
        Registers::G2 => seq!['g', '2'],
        Registers::G3 => seq!['g', '3'],
        Registers::M1 => seq!['m', '1'],
        Registers::M2 => seq!['m', '2'],
        Registers::Args => seq!['a', 'r', 'g', 's'],
        Registers::Ptr => seq!['p', 't', 'r'],
        Registers::Ret => seq!['r', 'e', 't'],
        Registers::CodePtr => seq!['c', 'p', 't', 'r'],
    }
}

/// Whether `s` spells the small-letter word `name` with any of its letters
/// written as capitals.
pub open spec fn spells(s: Seq<char>, name: Seq<char>) -> bool {
    &&& s.len() == name.len()
    &&& forall|i: int|
        0 <= i < s.len() ==> (#[trigger] s[i] == name[i] || ('a' <= name[i] <= 'z' && (s[i] as u32) + 32
            == (name[i] as u32)))
}

/// A name reads as a register exactly when it spells that register's name,
/// in any case: `g2` and `G2` are `G2`, `g3` is `G3`, `cPtr` is `CodePtr`,
/// and a name that spells none is no register.
pub proof fn law_register_names(s: Seq<char>, r: Registers)
    ensures
        spells(s, register_name(r)) <==> register_named(s) == Some(r),
{
    assert forall|q: Registers| eq_ignore_case(s, register_name(q)) <==> spells(s, register_name(q)) by {
        let n = register_name(q);
        if eq_ignore_case(s, n) {
            assert forall|i: int| 0 <= i < s.len() implies (#[trigger] s[i] == n[i] || ('a' <= n[i] <= 'z'
                && (s[i] as u32) + 32 == (n[i] as u32))) by {
                assert(same_letter(s[i], n[i]));
            }
        }
        if spells(s, n) {
            assert forall|i: int| 0 <= i < s.len() implies same_letter(#[trigger] s[i], n[i]) by {
                assert(s[i] == n[i] || ('a' <= n[i] <= 'z' && (s[i] as u32) + 32 == (n[i] as u32)));
            }
        }
    }
    assert forall|q: Registers, p: Registers| q != p && #[trigger] spells(s, register_name(q)) implies !#[trigger] spells(
        s,
        register_name(p),
    ) by {
        let a = register_name(q);
        let b = register_name(p);
        if spells(s, b) && a.len() == b.len() {
            let k: int = if a.len() == 2 { 1 } else if a.len() == 3 { 0 } else { 0 };
            assert(s[k] == a[k] || ('a' <= a[k] <= 'z' && (s[k] as u32) + 32 == (a[k] as u32)));
            assert(s[k] == b[k] || ('a' <= b[k] <= 'z' && (s[k] as u32) + 32 == (b[k] as u32)));
            if a.len() == 2 {
                assert(s[0] == a[0] || ('a' <= a[0] <= 'z' && (s[0] as u32) + 32 == (a[0] as u32)));
                assert(s[0] == b[0] || ('a' <= b[0] <= 'z' && (s[0] as u32) + 32 == (b[0] as u32)));
            }
        }
    }
    assert(spells(s, register_name(Registers::G1)) == eq_ignore_case(s, seq!['g', '1']));
    assert(spells(s, register_name(Registers::G2)) == eq_ignore_case(s, seq!['g', '2']));
    assert(spells(s, register_name(Registers::G3)) == eq_ignore_case(s, seq!['g', '3']));
    assert(spells(s, register_name(Registers::M1)) == eq_ignore_case(s, seq!['m', '1']));
    assert(spells(s, register_name(Registers::M2)) == eq_ignore_case(s, seq!['m', '2']));
    assert(spells(s, register_name(Registers::Args)) == eq_ignore_case(s, seq!['a', 'r', 'g', 's']));
    assert(spells(s, register_name(Registers::Ptr)) == eq_ignore_case(s, seq!['p', 't', 'r']));
    assert(spells(s, register_name(Registers::Ret)) == eq_ignore_case(s, seq!['r', 'e', 't']));
    assert(spells(s, register_name(Registers::CodePtr)) == eq_ignore_case(s, seq!['c', 'p', 't', 'r']));
}

impl Registers {
    /// The register named `s` (`g1`, `g2`, `g3`, `m1`, `m2`, `args`, `ptr`,
    /// `ret`, `cptr`, in any case); for another name, an `InvalidRegister`
    /// error is recorded and there is none.
    pub fn from_str(s: &str, errors: &mut Vec<ErrType>, line: Line) -> (r: Option<Registers>)
        ensures
            r == register_named(s@),
            r is Some ==> final(errors)@ == old(errors)@,
            r is None ==> final(errors)@.len() == old(errors)@.len() + 1
                && final(errors)@.drop_last() == old(errors)@
                && (final(errors)@.last() matches ErrType::InvalidRegister(t, l) && t@ == s@ && l == line),
    {
        proof {
            reveal_strlit("g1");
            reveal_strlit("g2");
            reveal_strlit("g3");
            reveal_strlit("m1");
            reveal_strlit("m2");
            reveal_strlit("args");
            reveal_strlit("ptr");
            reveal_strlit("ret");
            reveal_strlit("cptr");
            assert("g1"@ =~= seq!['g', '1']);
            assert("g2"@ =~= seq!['g', '2']);
            assert("g3"@ =~= seq!['g', '3']);
            assert("m1"@ =~= seq!['m', '1']);
            assert("m2"@ =~= seq!['m', '2']);
            assert("args"@ =~= seq!['a', 'r', 'g', 's']);
            assert("ptr"@ =~= seq!['p', 't', 'r']);
            assert("ret"@ =~= seq!['r', 'e', 't']);
            assert("cptr"@ =~= seq!['c', 'p', 't', 'r']);
        }
        if text_eq_ignore_case(s, "g1") {
            Some(Registers::G1)
        } else if text_eq_ignore_case(s, "g2") {
            Some(Registers::G2)
        } else if text_eq_ignore_case(s, "g3") {
            Some(Registers::G3)
        } else if text_eq_ignore_case(s, "m1") {
            Some(Registers::M1)
        } else if text_eq_ignore_case(s, "m2") {
            Some(Registers::M2)
        } else if text_eq_ignore_case(s, "args") {
            Some(Registers::Args)
        } else if text_eq_ignore_case(s, "ptr") {
            Some(Registers::Ptr)
        } else if text_eq_ignore_case(s, "ret") {
            Some(Registers::Ret)
        } else if text_eq_ignore_case(s, "cptr") {
            Some(Registers::CodePtr)
        } else {
            errors.push(ErrType::InvalidRegister(s.to_owned(), line));
            None
        }
    }
}

/// A function of a binary library.
pub struct Function {
    pub name: String,
    /// (name, type, where the argument is passed, line)
    pub args: Vec<(String, Kind, MemoryTypes, Line)>,
    pub return_type: Kind,
    pub errorable: bool,
    pub assign: usize,
    pub takes_self: bool,
}

/// An `impl` block of a binary library.
pub struct Implementation {
    pub target: Vec<String>,
    pub functions: Vec<Function>,
    pub overloads: Vec<Overload>,
    pub line: Line,
}

/// A struct of a binary library.
pub struct Struct {
    pub name: String,
    pub fields: Vec<(String, Kind)>,
    pub assign: usize,
    pub generics: Vec<GenericDecl>,
    pub methods: Vec<Function>,
    pub overloads: Vec<Overload>,
    pub traits: Vec<Implementation>,
}

/// A type whose values only the library itself handles.
pub struct UserData {
    pub name: String,
    pub assign: usize,
    pub generics: Vec<GenericDecl>,
    pub methods: Vec<Function>,
    pub overloads: Vec<Overload>,
    pub impls: Vec<Implementation>,
    pub line: Line,
}

/// An enum of a binary library.
pub struct Enum {
    pub name: String,
    pub variants: Vec<(String, usize)>,
    pub assign: usize,
}

/// A type alias of a binary library.
pub struct Type {
    pub name: String,
    pub kind: Kind,
    pub assign: usize,
}

/// The value of a constant of a binary library; a number is held as the
/// IEEE 754 bits of its value, with its type letter.
pub enum ConstValue {
    Number(u64, char),
    Text(String),
    Bool(bool),
}

/// A constant of a binary library.
pub struct Const {
    pub name: String,
    pub value: ConstValue,
}

/// A trait of a binary library.
pub struct Trait {
    pub name: String,
    pub functions: Vec<Function>,
    pub assign: usize,
}

/// Everything that a binary library declares.
pub struct Dictionary {
    pub functions: Vec<Function>,
    pub structs: Vec<Struct>,
    pub enums: Vec<Enum>,
    pub types: Vec<Type>,
    pub consts: Vec<Const>,
    pub traits: Vec<Trait>,
    pub user_data: Vec<UserData>,
    pub id: usize,
}

impl Dictionary {
    /// The dictionary of a library that declares nothing.
    pub fn new() -> (r: Dictionary)
        ensures
            r.functions@.len() == 0,
            r.structs@.len() == 0,
            r.enums@.len() == 0,
            r.types@.len() == 0,
            r.consts@.len() == 0,
            r.traits@.len() == 0,
            r.user_data@.len() == 0,
            r.id == 0,
    {
        Dictionary {
            functions: Vec::new(),
            structs: Vec::new(),
            enums: Vec::new(),
            types: Vec::new(),
            consts: Vec::new(),
            traits: Vec::new(),
            user_data: Vec::new(),
            id: 0,
        }
    }
}

/// Whether one of `funs` is named `name`.
pub open spec fn has_bin_fun(funs: Seq<Function>, name: Seq<char>) -> bool {
    exists|i: int| 0 <= i < funs.len() && (#[trigger] funs[i]).name@ == name
}

impl UserData {
    /// The method named `name`, as a field of a value of this type.
    pub fn get_field(&self, name: &str) -> (r: Option<(CompoundField, usize)>)
        ensures
            has_bin_fun(self.methods@, name@) ==> (r matches Some((CompoundField::Method(m), 0))
                && m@ == name@),
            !has_bin_fun(self.methods@, name@) ==> r is None,
    {
        let mut i: usize = 0;
        while i < self.methods.len()
            invariant
                i <= self.methods@.len(),
                forall|j: int| 0 <= j < i ==> (#[trigger] self.methods@[j]).name@ != name@,
            decreases self.methods@.len() - i,
        {
            if text_eq(self.methods[i].name.as_str(), name) {
                return Some((CompoundField::Method(name.to_owned()), 0));
            }
            i = i + 1;
        }
        None
    }
}


/// Whether the character `c` lowercases to the small ASCII letter `t`, as
/// `str::to_lowercase` maps it: `t` itself, its capital, or for `k` also the
/// Kelvin sign.
pub open spec fn lowers_to(c: char, t: char) -> bool {
    same_letter(c, t) || (t == 'k' && c == '\u{212A}')
}

/// Whether `s` lowercases to `t`, a word of small ASCII letters other than
/// `i` (no other character lowercases to one of those letters).
pub open spec fn lowers_to_word(s: Seq<char>, t: Seq<char>) -> bool {
    s.len() == t.len() && forall|i: int| 0 <= i < s.len() ==> lowers_to(#[trigger] s[i], t[i])
}

/// Whether `s` lowercases to `t` (see `lowers_to_word`).
fn lowers_to_text(s: &str, t: &str) -> (r: bool)
    ensures
        r == lowers_to_word(s@, t@),
{
    let n = s.unicode_len();
    if n != t.unicode_len() {
        return false;
    }
    let mut i: usize = 0;
    while i < n
        invariant
            n == s@.len() == t@.len(),
            i <= n,
            forall|j: int| 0 <= j < i ==> lowers_to(#[trigger] s@[j], t@[j]),
        decreases n - i,
    {
        let c = s.get_char(i);
        let d = t.get_char(i);
        let same = c == d || ('a' <= d && d <= 'z' && (c as u32) + 32 == (d as u32)) || (d == 'k' && c
            == '\u{212A}');
        if !same {
            assert(!lowers_to(s@[i as int], t@[i as int]));
            return false;
        }
        i = i + 1;
    }
    true
}

/// The text of a node's own token, where it is text.
pub open spec fn token_text(n: Node) -> Seq<char> {
    n.name->Text_0@
}

/// The word that names the kind of place of an argument: the part
/// `mem.mem.mem` of its node.
pub open spec fn mem_word(node: Node) -> Seq<char> {
    token_text(val(val(val(node, "mem"@), "mem"@), "mem"@))
}

/// The word that gives the place itself: the part `mem.loc` of its node.
pub open spec fn loc_word(node: Node) -> Seq<char> {
    token_text(val(val(node, "mem"@), "loc"@))
}

/// Whether the node of an argument declares its place: both words are text,
/// the kind is `stack` with a number that fits in a `usize`, or `reg`, in
/// any case.
pub open spec fn mem_loc_ok(node: Node) -> bool {
    &&& has_val(node, "mem"@)
    &&& has_val(val(node, "mem"@), "mem"@)
    &&& has_val(val(val(node, "mem"@), "mem"@), "mem"@)
    &&& val(val(val(node, "mem"@), "mem"@), "mem"@).name is Text
    &&& has_val(val(node, "mem"@), "loc"@)
    &&& val(val(node, "mem"@), "loc"@).name is Text
    &&& (lowers_to_word(mem_word(node), seq!['s', 't', 'a', 'c', 'k']) && std_parse_usize(loc_word(node)) is Some)
        || lowers_to_word(mem_word(node), seq!['r', 'e', 'g'])
}

/// The place an argument's node declares: the stack slot of its number, or
/// the register it names, `g1` where it names none.
pub open spec fn mem_loc_spec(node: Node) -> MemoryTypes {
    if lowers_to_word(mem_word(node), seq!['s', 't', 'a', 'c', 'k']) {
        MemoryTypes::Stack(std_parse_usize(loc_word(node))->0 as usize)
    } else {
        MemoryTypes::Register(
            match register_named(loc_word(node)) {
                Some(r) => r,
                None => Registers::G1,
            },
        )
    }
}

/// The place where an argument of a binary library lives, as its node
/// declares it.
pub fn get_mem_loc(node: &Node) -> (r: MemoryTypes)
    requires
        mem_loc_ok(*node),
    ensures
        r == mem_loc_spec(*node),
{
    let node = step_inside_val(node, "mem");
    let mem_node = step_inside_val(step_inside_val(node, "mem"), "mem");
    let loc_node = step_inside_val(node, "loc");
    let (mem, loc) = match (&mem_node.name, &loc_node.name) {
        (Tokens::Text(m), Tokens::Text(l)) => (m, l),
        _ => {
            assert(false);
            return MemoryTypes::Register(Registers::G1);
        },
    };
    proof {
        reveal_strlit("stack");
        reveal_strlit("reg");
        assert("stack"@ =~= seq!['s', 't', 'a', 'c', 'k']);
        assert("reg"@ =~= seq!['r', 'e', 'g']);
    }
    if lowers_to_text(mem.as_str(), "stack") {
        match parse_part(loc.as_str()) {
            Some(n) => MemoryTypes::Stack(n),
            None => {
                assert(false);
                MemoryTypes::Stack(0)
            },
        }
    } else {
        let mut ignored: Vec<ErrType> = Vec::new();
        match Registers::from_str(loc.as_str(), &mut ignored, Line { line: 0, column: 0 }) {
            Some(reg) => MemoryTypes::Register(reg),
            None => MemoryTypes::Register(Registers::G1),
        }
    }
}

} // verus!
