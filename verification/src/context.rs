//! The dictionaries of all the files of a program, source files and binary
//! libraries, each found by its file name, and their preparation before code
//! is generated.
use vstd::prelude::*;
use crate::lexer::text_eq;
use crate::libloader::Dictionary as BinDictionary;
use crate::types::{ConstValue, Constant, Dictionary, Function};

verus! {

/// Whether no two entries of `s` have the same name.
pub open spec fn keys_unique<V>(s: Seq<(String, V)>) -> bool {
    forall|i: int, j: int| 0 <= i < j < s.len() ==> (#[trigger] s[i]).0@ != (#[trigger] s[j]).0@
}

/// Whether entry `i` of `s` is named `k`.
pub open spec fn key_at<V>(s: Seq<(String, V)>, k: Seq<char>, i: int) -> bool {
    0 <= i < s.len() && s[i].0@ == k
}

/// Whether an entry of `s` is named `k`.
pub open spec fn has_key<V>(s: Seq<(String, V)>, k: Seq<char>) -> bool {
    exists|i: int| key_at(s, k, i)
}

/// The value of the entry of `s` named `k`, where there is one.
pub open spec fn value_of<V>(s: Seq<(String, V)>, k: Seq<char>) -> V {
    s[choose|i: int| key_at(s, k, i)].1
}

/// Where names are unique, the entry named `k` is the one at any place named `k`.
pub proof fn lemma_value_of<V>(s: Seq<(String, V)>, k: Seq<char>, i: int)
    requires
        keys_unique(s),
        key_at(s, k, i),
    ensures
        value_of(s, k) == s[i].1,
{
    let c = choose|i: int| key_at(s, k, i);
    assert(key_at(s, k, c));
    if c < i {
        assert(s[c].0@ != s[i].0@);
    } else if i < c {
        assert(s[i].0@ != s[c].0@);
    }
}

/// The place of the entry named `k`.
pub fn find_key<V>(s: &Vec<(String, V)>, k: &str) -> (r: Option<usize>)
    ensures
        r matches Some(i) ==> key_at(s@, k@, i as int) && forall|j: int|
            0 <= j < i ==> (#[trigger] s@[j]).0@ != k@,
        r is None ==> !has_key(s@, k@),
{
    let mut i: usize = 0;
    while i < s.len()
        invariant
            i <= s@.len(),
            forall|j: int| 0 <= j < i ==> (#[trigger] s@[j]).0@ != k@,
        decreases s@.len() - i,
    {
        if text_eq(s[i].0.as_str(), k) {
            return Some(i);
        }
        i = i + 1;
    }
    assert forall|j: int| !key_at(s@, k@, j) by {
        if 0 <= j < s@.len() {
            assert(s@[j].0@ != k@);
        }
    }
    None
}

/// The dictionaries of the source files, by file name.
pub type Dictionaries = Vec<(String, Dictionary)>;

/// The dictionaries of the binary libraries, by file name.
pub type Binaries = Vec<(String, BinDictionary)>;

/// The dictionaries of all the files of a program.
pub struct Context(pub Dictionaries, pub Binaries);

/// Whether `i` is the place of the first function of `funs` named `name`,
/// and every function before it has a name.
pub open spec fn first_named_fun(funs: Seq<Function>, name: Seq<char>, i: int) -> bool {
    &&& 0 <= i < funs.len()
    &&& funs[i].identifier matches Some(id) && id@ == name
    &&& forall|j: int| 0 <= j < i ==> ((#[trigger] funs[j]).identifier matches Some(id) && id@ != name)
}

/// The name of the main file.
pub open spec fn main_file() -> Seq<char> {
    seq!['m', 'a', 'i', 'n', '.', 'r', 'd']
}

/// The name of the main function.
pub open spec fn main_fun() -> Seq<char> {
    seq!['m', 'a', 'i', 'n']
}

impl Context {
    /// Whether no two files of the same kind share a name.
    pub open spec fn wf(&self) -> bool {
        keys_unique(self.0@) && keys_unique(self.1@)
    }

    /// Whether the main file has a main function that can be found.
    pub open spec fn has_main(&self) -> bool {
        has_key(self.0@, main_file()) && exists|i: int|
            first_named_fun(value_of(self.0@, main_file()).functions@, main_fun(), i)
    }

    /// The context of these dictionaries.
    pub fn new(dictionaries: Dictionaries, binaries: Binaries) -> (r: Context)
        ensures
            r.0 == dictionaries,
            r.1 == binaries,
    {
        Context(dictionaries, binaries)
    }

    /// The dictionaries of the source files and of the binary libraries.
    pub fn destruct(&self) -> (r: (&Dictionaries, &Binaries))
        ensures
            *r.0 == self.0,
            *r.1 == self.1,
    {
        (&self.0, &self.1)
    }

    /// The main function of the main file.
    pub fn get_main(&self) -> (r: &Function)
        requires
            self.wf(),
            self.has_main(),
        ensures
            exists|i: int|
                first_named_fun(value_of(self.0@, main_file()).functions@, main_fun(), i) && *r
                    == value_of(self.0@, main_file()).functions@[i],
    {
        proof {
            reveal_strlit("main.rd");
            reveal_strlit("main");
            assert("main.rd"@ =~= main_file());
            assert("main"@ =~= main_fun());
        }
        let f = find_key(&self.0, "main.rd");
        let fi = match f {
            Some(fi) => fi,
            None => {
                assert(false);
                0
            },
        };
        proof {
            lemma_value_of(self.0@, main_file(), fi as int);
        }
        let fns = &self.0[fi].1.functions;
        let ghost w = choose|i: int| first_named_fun(fns@, main_fun(), i);
        let mut i: usize = 0;
        while i < fns.len()
            invariant
                i <= fns@.len(),
                first_named_fun(fns@, main_fun(), w),
                i <= w,
                "main"@ == main_fun(),
                value_of(self.0@, main_file()).functions@ == fns@,
            decreases fns@.len() - i,
        {
            let hit = match &fns[i].identifier {
                Some(id) => text_eq(id.as_str(), "main"),
                None => false,
            };
            if hit {
                assert(first_named_fun(fns@, main_fun(), i as int));
                return &fns[i];
            }
            i = i + 1;
        }
        assert(false);
        &fns[0]
    }
}

/// What can go wrong while a program is prepared.
pub enum PrepError {
    CouldNotLoadConstants(Vec<PrepError>),
    ConstNotFound(String),
}

/// The value of a constant, computed before code is generated: every
/// constant stands for the integer 0 so far.
pub fn prep_const(constant: &Constant, name: &str, context: &Context) -> (r: Result<ConstValue, PrepError>)
    ensures
        r == Ok::<ConstValue, PrepError>(ConstValue::Int(0)),
{
    Ok(ConstValue::Int(0))
}

/// Whether `i` is the first place of its name among `consts`.
pub open spec fn first_of_name(consts: Seq<Constant>, i: int) -> bool {
    forall|j: int| 0 <= j < i ==> (#[trigger] consts[j]).identifier@ != consts[i].identifier@
}

/// The constants once each name has its value: the first constant of each
/// name gets the value that `prep_const` computes; the others stay as they are.
pub open spec fn prepared_consts(consts: Seq<Constant>) -> Seq<Constant> {
    Seq::new(
        consts.len(),
        |i: int|
            if first_of_name(consts, i) {
                Constant { real_value: Some(ConstValue::Int(0)), ..consts[i] }
            } else {
                consts[i]
            },
    )
}

/// Whether `after` is `before` with the constants of the file `name`
/// prepared, and nothing else changed.
pub open spec fn prepared_file(before: Context, after: Context, name: Seq<char>) -> bool {
    &&& after.1 == before.1
    &&& after.0@.len() == before.0@.len()
    &&& forall|t: int|
        0 <= t < before.0@.len() ==> {
            &&& (#[trigger] after.0@[t]).0 == before.0@[t].0
            &&& before.0@[t].0@ != name ==> after.0@[t] == before.0@[t]
            &&& before.0@[t].0@ == name ==> {
                &&& after.0@[t].1 == (Dictionary { constants: after.0@[t].1.constants, ..before.0@[t].1 })
                &&& after.0@[t].1.constants@ == prepared_consts(before.0@[t].1.constants@)
            }
        }
}

/// Whether `after` is `before` with the constants of every file prepared.
pub open spec fn prepared_all(before: Context, after: Context) -> bool {
    &&& after.1 == before.1
    &&& after.0@.len() == before.0@.len()
    &&& forall|t: int|
        0 <= t < before.0@.len() ==> {
            &&& (#[trigger] after.0@[t]).0 == before.0@[t].0
            &&& after.0@[t].1 == (Dictionary { constants: after.0@[t].1.constants, ..before.0@[t].1 })
            &&& after.0@[t].1.constants@ == prepared_consts(before.0@[t].1.constants@)
        }
}

/// Gives each constant of the file `name` its value; where names repeat,
/// the first constant of the name gets it.
fn prep_consts(name: &str, context: &mut Context) -> (r: Result<(), PrepError>)
    requires
        old(context).wf(),
        has_key(old(context).0@, name@),
    ensures
        r is Ok,
        prepared_file(*old(context), *final(context), name@),
{
    let fi = match find_key(&context.0, name) {
        Some(i) => i,
        None => {
            assert(false);
            0
        },
    };
    let n = context.0[fi].1.constants.len();
    let mut values: Vec<Option<ConstValue>> = Vec::new();
    let mut errs: Vec<PrepError> = Vec::new();
    let mut i: usize = 0;
    while i < n
        invariant
            fi < context.0@.len(),
            n == context.0@[fi as int].1.constants@.len(),
            i <= n,
            values@.len() == i,
            errs@.len() == 0,
            forall|j: int| 0 <= j < i ==> values@[j] == Some(ConstValue::Int(0)),
        decreases n - i,
    {
        match prep_const(&context.0[fi].1.constants[i], name, context) {
            Ok(v) => {
                values.push(Some(v));
            },
            Err(e) => {
                errs.push(e);
            },
        }
        i = i + 1;
    }
    if errs.len() > 0 {
        return Err(PrepError::CouldNotLoadConstants(errs));
    }
    let ghost before = *context;
    let ghost old_consts = context.0@[fi as int].1.constants@;
    let mut k: usize = 0;
    while k < n
        invariant
            fi < context.0@.len() == before.0@.len(),
            key_at(before.0@, name@, fi as int),
            old_consts == before.0@[fi as int].1.constants@,
            n == old_consts.len(),
            values@.len() == n,
            forall|j: int| k <= j < n ==> values@[j] == Some(ConstValue::Int(0)),
            k <= n,
            context.1 == before.1,
            forall|t: int| 0 <= t < before.0@.len() && t != fi ==> #[trigger] context.0@[t] == before.0@[t],
            context.0@[fi as int].0 == before.0@[fi as int].0,
            context.0@[fi as int].1 == (Dictionary { constants: context.0@[fi as int].1.constants, ..before.0@[fi as int].1 }),
            context.0@[fi as int].1.constants@.len() == n,
            forall|j: int| 0 <= j < k ==> #[trigger] context.0@[fi as int].1.constants@[j] == prepared_consts(old_consts)[j],
            forall|j: int| k <= j < n ==> #[trigger] context.0@[fi as int].1.constants@[j] == old_consts[j],
        decreases n - k,
    {
        let mut first = true;
        let mut j: usize = 0;
        while j < k
            invariant
                j <= k < n,
                fi < context.0@.len(),
                context.0@[fi as int].1.constants@.len() == n,
                forall|m: int| 0 <= m < k ==> (#[trigger] context.0@[fi as int].1.constants@[m]).identifier == old_consts[m].identifier,
                context.0@[fi as int].1.constants@[k as int] == old_consts[k as int],
                first == forall|m: int| 0 <= m < j ==> (#[trigger] old_consts[m]).identifier@ != old_consts[k as int].identifier@,
            decreases k - j,
        {
            if context.0[fi].1.constants[j].identifier == context.0[fi].1.constants[k].identifier {
                first = false;
            }
            j = j + 1;
        }
        if first {
            let mut v: Option<ConstValue> = None;
            std::mem::swap(&mut v, &mut values[k]);
            context.0[fi].1.constants[k].real_value = v;
        }
        assert(context.0@[fi as int].1.constants@[k as int] == prepared_consts(old_consts)[k as int]);
        k = k + 1;
    }
    assert(context.0@[fi as int].1.constants@ =~= prepared_consts(old_consts));
    proof {
        assert forall|t: int| 0 <= t < before.0@.len() && before.0@[t].0@ == name@ implies t == fi by {
            if t != fi {
                assert(before.0@[t].0@ != before.0@[fi as int].0@);
            }
        }
    }
    Ok(())
}

/// Gives each constant of the file `name` its value.
pub fn prep_dict(name: &str, context: &mut Context) -> (r: Result<(), PrepError>)
    requires
        old(context).wf(),
        has_key(old(context).0@, name@),
    ensures
        r is Ok,
        prepared_file(*old(context), *final(context), name@),
{
    match prep_consts(name, context) {
        Ok(()) => (),
        Err(err) => return Err(err),
    }
    Ok(())
}

/// Gives the constants of every file their values.
pub fn prep(context: &mut Context) -> (r: Result<(), PrepError>)
    requires
        old(context).wf(),
    ensures
        r is Ok,
        prepared_all(*old(context), *final(context)),
{
    let mut keys: Vec<String> = Vec::new();
    let mut i: usize = 0;
    while i < context.0.len()
        invariant
            i <= context.0@.len(),
            keys@.len() == i,
            forall|j: int| 0 <= j < i ==> (#[trigger] keys@[j])@ == context.0@[j].0@,
        decreases context.0@.len() - i,
    {
        keys.push(context.0[i].0.clone());
        i = i + 1;
    }
    let ghost before = *context;
    let mut k: usize = 0;
    while k < keys.len()
        invariant
            keys@.len() == before.0@.len() == context.0@.len(),
            forall|j: int| 0 <= j < keys@.len() ==> (#[trigger] keys@[j])@ == before.0@[j].0@,
            keys_unique(before.0@),
            context.wf(),
            k <= keys@.len(),
            context.1 == before.1,
            forall|t: int| 0 <= t < before.0@.len() ==> {
                &&& (#[trigger] context.0@[t]).0 == before.0@[t].0
                &&& t < k ==> context.0@[t].1 == (Dictionary { constants: context.0@[t].1.constants, ..before.0@[t].1 })
                &&& t < k ==> context.0@[t].1.constants@ == prepared_consts(before.0@[t].1.constants@)
                &&& t >= k ==> context.0@[t] == before.0@[t]
            },
        decreases keys@.len() - k,
    {
        proof {
            assert(key_at(context.0@, keys@[k as int]@, k as int));
        }
        let ghost mid = *context;
        match prep_dict(keys[k].as_str(), context) {
            Ok(()) => (),
            Err(err) => return Err(err),
        }
        proof {
            assert forall|t: int| 0 <= t < before.0@.len() && t != k implies mid.0@[t].0@ != keys@[k as int]@ by {
                if t < k {
                    assert(before.0@[t].0@ != before.0@[k as int].0@);
                } else {
                    assert(before.0@[k as int].0@ != before.0@[t].0@);
                }
            }
            assert forall|a: int, b: int| 0 <= a < b < context.0@.len() implies (#[trigger] context.0@[a]).0@ != (#[trigger] context.0@[b]).0@ by {
                assert(before.0@[a].0@ != before.0@[b].0@);
            }
        }
        k = k + 1;
    }
    Ok(())
}

} // verus!
